//! Call counters of a load test, updated as calls start and end.
use vstd::prelude::*;
use vstd::multiset::Multiset;
use hdrhistogram::Histogram;

verus! {

/// `a + 1` modulo 2^64.
pub open spec fn inc64(a: u64) -> u64 {
    ((a + 1) % 0x1_0000_0000_0000_0000) as u64
}

/// `a + d` wrapped into the range of `i64`.
pub open spec fn wrap_i64(x: int) -> i64 {
    if x > i64::MAX {
        (x - 0x1_0000_0000_0000_0000) as i64
    } else if x < i64::MIN {
        (x + 0x1_0000_0000_0000_0000) as i64
    } else {
        x as i64
    }
}

/// Counters kept while a test runs.
#[derive(Debug, Default)]
pub struct LiveStats {
    pub calls_initiated: u64,
    pub calls_answered: u64,
    pub calls_completed: u64,
    pub calls_failed: u64,
    pub calls_timeout: u64,
    /// Calls under way: from the INVITE to completion, failure or timeout.
    pub calls_active: i64,
    /// RTP sessions running.
    pub rtp_sessions: u64,
}

/// Every call under way has been started and has not yet ended:
/// active = initiated − completed − failed − timed out.
pub open spec fn balanced(s: LiveStats) -> bool {
    s.calls_active == s.calls_initiated - s.calls_completed - s.calls_failed - s.calls_timeout
}

/// No counter is at its upper limit, so the next step does not wrap.
pub open spec fn below_limits(s: LiveStats) -> bool {
    &&& s.calls_initiated < u64::MAX
    &&& s.calls_completed < u64::MAX
    &&& s.calls_failed < u64::MAX
    &&& s.calls_timeout < u64::MAX
    &&& i64::MIN < s.calls_active < i64::MAX
}

/// After an INVITE went out.
pub open spec fn after_invite(s: LiveStats) -> LiveStats {
    LiveStats {
        calls_initiated: inc64(s.calls_initiated),
        calls_active: wrap_i64(s.calls_active + 1),
        ..s
    }
}

/// After a call was answered.
pub open spec fn after_answer(s: LiveStats) -> LiveStats {
    LiveStats { calls_answered: inc64(s.calls_answered), ..s }
}

/// After a call ended normally.
pub open spec fn after_complete(s: LiveStats) -> LiveStats {
    LiveStats {
        calls_completed: inc64(s.calls_completed),
        calls_active: wrap_i64(s.calls_active - 1),
        ..s
    }
}

/// After a call failed.
pub open spec fn after_fail(s: LiveStats) -> LiveStats {
    LiveStats {
        calls_failed: inc64(s.calls_failed),
        calls_active: wrap_i64(s.calls_active - 1),
        ..s
    }
}

/// After a call timed out.
pub open spec fn after_timeout(s: LiveStats) -> LiveStats {
    LiveStats {
        calls_timeout: inc64(s.calls_timeout),
        calls_active: wrap_i64(s.calls_active - 1),
        ..s
    }
}

/// Every step keeps the count of calls under way equal to the calls
/// started less those that ended (completed, failed or timed out), as long
/// as no counter is at its limit.
pub proof fn lemma_balance_kept(s: LiveStats)
    requires
        balanced(s),
        below_limits(s),
    ensures
        balanced(after_invite(s)),
        balanced(after_answer(s)),
        balanced(after_complete(s)),
        balanced(after_fail(s)),
        balanced(after_timeout(s)),
{
}

impl LiveStats {
    /// All counters at zero.
    pub fn new() -> (s: Self)
        ensures
            s == (LiveStats {
                calls_initiated: 0,
                calls_answered: 0,
                calls_completed: 0,
                calls_failed: 0,
                calls_timeout: 0,
                calls_active: 0,
                rtp_sessions: 0,
            }),
            balanced(s),
    {
        LiveStats {
            calls_initiated: 0,
            calls_answered: 0,
            calls_completed: 0,
            calls_failed: 0,
            calls_timeout: 0,
            calls_active: 0,
            rtp_sessions: 0,
        }
    }

    /// An INVITE went out: one more call started and under way.
    pub fn on_invite(&mut self)
        ensures
            *final(self) == after_invite(*old(self)),
    {
        self.calls_initiated = self.calls_initiated.wrapping_add(1);
        self.calls_active = self.calls_active.wrapping_add(1);
    }

    /// A call was answered.
    pub fn on_answered(&mut self)
        ensures
            *final(self) == after_answer(*old(self)),
    {
        self.calls_answered = self.calls_answered.wrapping_add(1);
    }

    /// A call ended normally.
    pub fn on_completed(&mut self)
        ensures
            *final(self) == after_complete(*old(self)),
    {
        self.calls_completed = self.calls_completed.wrapping_add(1);
        self.calls_active = self.calls_active.wrapping_sub(1);
    }

    /// A call failed.
    pub fn on_failed(&mut self)
        ensures
            *final(self) == after_fail(*old(self)),
    {
        self.calls_failed = self.calls_failed.wrapping_add(1);
        self.calls_active = self.calls_active.wrapping_sub(1);
    }

    /// A call timed out.
    pub fn on_timeout(&mut self)
        ensures
            *final(self) == after_timeout(*old(self)),
    {
        self.calls_timeout = self.calls_timeout.wrapping_add(1);
        self.calls_active = self.calls_active.wrapping_sub(1);
    }

    /// An RTP session started.
    pub fn on_rtp_start(&mut self)
        ensures
            *final(self) == (LiveStats { rtp_sessions: inc64(old(self).rtp_sessions), ..*old(self) }),
    {
        self.rtp_sessions = self.rtp_sessions.wrapping_add(1);
    }

    /// An RTP session stopped; the count does not go below zero.
    pub fn on_rtp_stop(&mut self)
        ensures
            *final(self) == (LiveStats {
                rtp_sessions: if old(self).rtp_sessions > 0 {
                    (old(self).rtp_sessions - 1) as u64
                } else {
                    0
                },
                ..*old(self)
            }),
    {
        if self.rtp_sessions > 0 {
            self.rtp_sessions = self.rtp_sessions - 1;
        }
    }

    /// Calls under way, never below zero.
    pub fn calls_concurrent(&self) -> (n: u64)
        ensures
            n == (if self.calls_active > 0 {
                self.calls_active as u64
            } else {
                0
            }),
    {
        if self.calls_active > 0 {
            self.calls_active as u64
        } else {
            0
        }
    }
}

// ─── latency distributions and failure classes ─────────────────────

/// A latency histogram (`hdrhistogram::Histogram<u64>`, in µs). Verus sees
/// it only through the names `bucket_counts`, `recorded_count`,
/// `highest_trackable`, `auto_resizes` and `lowest_equivalent`; the
/// histogram itself is read (percentiles, mean) where the report is made,
/// which works in floating point.
#[verifier::external_body]
pub struct LatencyHistogram {
    pub hist: Histogram<u64>,
}

/// What a histogram holds: each of its buckets, named by the lowest value
/// it stands for, as many times as the bucket's count.
pub uninterp spec fn bucket_counts(h: LatencyHistogram) -> Multiset<u64>;

/// `Histogram::lowest_equivalent`: the lowest value of the bucket that
/// `v` falls in.
pub uninterp spec fn lowest_equivalent(h: LatencyHistogram, v: u64) -> u64;

/// How many values a histogram has recorded (its `len()`).
pub uninterp spec fn recorded_count(h: LatencyHistogram) -> u64;

/// The highest value a histogram tracks (its `high()`).
pub uninterp spec fn highest_trackable(h: LatencyHistogram) -> u64;

/// Whether a histogram grows to take a value above its highest one (its
/// `is_auto_resize()`).
pub uninterp spec fn auto_resizes(h: LatencyHistogram) -> bool;

/// `c + 1`, staying at `u64::MAX`.
pub open spec fn sat_inc(c: u64) -> u64 {
    if c == u64::MAX {
        c
    } else {
        (c + 1) as u64
    }
}

/// `Histogram::new_with_bounds(1, 60_000_000, 3)`, which accepts these
/// bounds (low at least 1, high at least twice low, at most 5 significant
/// figures): an empty histogram tracking 1 µs to 60 s at three significant
/// figures, without auto-resize.
#[verifier::external_body]
fn new_latency_histogram() -> (h: LatencyHistogram)
    ensures
        bucket_counts(h) == Multiset::<u64>::empty(),
        recorded_count(h) == 0,
        highest_trackable(h) == 60_000_000,
        !auto_resizes(h),
{
    LatencyHistogram { hist: Histogram::<u64>::new_with_bounds(1, 60_000_000, 3).unwrap() }
}

/// `Histogram::record`. A value no higher than the highest trackable one
/// adds one to the bucket it falls in (unless that bucket's count is at
/// `u64::MAX`, where it saturates) and to the total count (saturating);
/// the bounds stay. A higher value is either counted in the same way (when
/// it still falls in the last bucket, or when the histogram auto-resizes
/// and grows) or refused, leaving the contents as they were; which of the
/// two is not stated. Without auto-resize the bounds never change; the
/// auto-resize setting never does.
#[verifier::external_body]
fn histogram_record(h: &mut LatencyHistogram, value: u64)
    ensures
        auto_resizes(*final(h)) == auto_resizes(*old(h)),
        value <= highest_trackable(*old(h)) || !auto_resizes(*old(h)) ==> highest_trackable(*final(h))
            == highest_trackable(*old(h)),
        value <= highest_trackable(*old(h)) ==> recorded_count(*final(h)) == sat_inc(
            recorded_count(*old(h)),
        ),
        recorded_count(*final(h)) == sat_inc(recorded_count(*old(h))) || recorded_count(*final(h))
            == recorded_count(*old(h)),
        value <= highest_trackable(*old(h)) && bucket_counts(*old(h)).count(
            lowest_equivalent(*old(h), value),
        ) < u64::MAX ==> bucket_counts(*final(h)) == bucket_counts(*old(h)).insert(
            lowest_equivalent(*old(h), value),
        ),
        bucket_counts(*final(h)) == bucket_counts(*old(h)) || bucket_counts(*final(h))
            == bucket_counts(*old(h)).insert(lowest_equivalent(*old(h), value)),
{
    let _ = h.hist.record(value);
}

/// `Histogram::len`: the total count of recorded values.
#[verifier::external_body]
fn histogram_len(h: &LatencyHistogram) -> (n: u64)
    ensures
        n == recorded_count(*h),
{
    h.hist.len()
}

impl LatencyHistogram {
    /// How many values were recorded.
    pub fn count(&self) -> (n: u64)
        ensures
            n == recorded_count(*self),
    {
        histogram_len(self)
    }
}

/// Latency distributions (µs) and failure counts by status class.
pub struct DetailedStats {
    /// Post-dial delay: INVITE to 180.
    pub pdd_hist: LatencyHistogram,
    /// Call setup: INVITE to 200 OK.
    pub setup_hist: LatencyHistogram,
    /// Call duration: answer to end.
    pub dur_hist: LatencyHistogram,
    pub fail_4xx: u64,
    pub fail_5xx: u64,
    pub fail_6xx: u64,
}

/// The bounds of the three histograms.
pub open spec fn detail_bounds(d: DetailedStats) -> bool {
    &&& highest_trackable(d.pdd_hist) == 60_000_000
    &&& highest_trackable(d.setup_hist) == 60_000_000
    &&& highest_trackable(d.dur_hist) == 60_000_000
    &&& !auto_resizes(d.pdd_hist)
    &&& !auto_resizes(d.setup_hist)
    &&& !auto_resizes(d.dur_hist)
}

/// The value a histogram records for `us` microseconds: at least 1.
pub open spec fn at_least_one(us: u64) -> u64 {
    if us > 1 {
        us
    } else {
        1
    }
}

/// The failure class of a status code: 4, 5 or 6 for 4xx, 5xx, 6xx,
/// otherwise 0.
pub open spec fn fail_class(code: u16) -> nat {
    if 400 <= code <= 499 {
        4
    } else if 500 <= code <= 599 {
        5
    } else if 600 <= code <= 699 {
        6
    } else {
        0
    }
}

impl DetailedStats {
    /// Empty distributions (1 µs to 60 s) and zero failures.
    pub fn new() -> (d: Self)
        ensures
            detail_bounds(d),
            recorded_count(d.pdd_hist) == 0,
            recorded_count(d.setup_hist) == 0,
            recorded_count(d.dur_hist) == 0,
            bucket_counts(d.pdd_hist) == Multiset::<u64>::empty(),
            bucket_counts(d.setup_hist) == Multiset::<u64>::empty(),
            bucket_counts(d.dur_hist) == Multiset::<u64>::empty(),
            d.fail_4xx == 0 && d.fail_5xx == 0 && d.fail_6xx == 0,
    {
        DetailedStats {
            pdd_hist: new_latency_histogram(),
            setup_hist: new_latency_histogram(),
            dur_hist: new_latency_histogram(),
            fail_4xx: 0,
            fail_5xx: 0,
            fail_6xx: 0,
        }
    }

    /// Records a post-dial delay of `us` microseconds (at least 1).
    pub fn record_pdd_us(&mut self, us: u64)
        ensures
            detail_bounds(*old(self)) ==> detail_bounds(*final(self)),
            at_least_one(us) <= highest_trackable(old(self).pdd_hist) ==> recorded_count(final(self).pdd_hist)
                == sat_inc(recorded_count(old(self).pdd_hist)),
            recorded_count(final(self).pdd_hist) == sat_inc(recorded_count(old(self).pdd_hist))
                || recorded_count(final(self).pdd_hist) == recorded_count(old(self).pdd_hist),
            at_least_one(us) <= highest_trackable(old(self).pdd_hist) && bucket_counts(old(self).pdd_hist).count(
                lowest_equivalent(old(self).pdd_hist, at_least_one(us)),
            ) < u64::MAX ==> bucket_counts(final(self).pdd_hist) == bucket_counts(old(self).pdd_hist).insert(
                lowest_equivalent(old(self).pdd_hist, at_least_one(us)),
            ),
            bucket_counts(final(self).pdd_hist) == bucket_counts(old(self).pdd_hist) || bucket_counts(
                final(self).pdd_hist,
            ) == bucket_counts(old(self).pdd_hist).insert(lowest_equivalent(old(self).pdd_hist, at_least_one(us))),
            final(self).setup_hist == old(self).setup_hist,
            final(self).dur_hist == old(self).dur_hist,
            final(self).fail_4xx == old(self).fail_4xx,
            final(self).fail_5xx == old(self).fail_5xx,
            final(self).fail_6xx == old(self).fail_6xx,
    {
        let v = if us > 1 {
            us
        } else {
            1
        };
        histogram_record(&mut self.pdd_hist, v);
    }

    /// Records a call setup time of `us` microseconds (at least 1).
    pub fn record_setup_us(&mut self, us: u64)
        ensures
            detail_bounds(*old(self)) ==> detail_bounds(*final(self)),
            at_least_one(us) <= highest_trackable(old(self).setup_hist) ==> recorded_count(final(self).setup_hist)
                == sat_inc(recorded_count(old(self).setup_hist)),
            recorded_count(final(self).setup_hist) == sat_inc(recorded_count(old(self).setup_hist))
                || recorded_count(final(self).setup_hist) == recorded_count(old(self).setup_hist),
            at_least_one(us) <= highest_trackable(old(self).setup_hist) && bucket_counts(old(self).setup_hist).count(
                lowest_equivalent(old(self).setup_hist, at_least_one(us)),
            ) < u64::MAX ==> bucket_counts(final(self).setup_hist) == bucket_counts(old(self).setup_hist).insert(
                lowest_equivalent(old(self).setup_hist, at_least_one(us)),
            ),
            bucket_counts(final(self).setup_hist) == bucket_counts(old(self).setup_hist) || bucket_counts(
                final(self).setup_hist,
            ) == bucket_counts(old(self).setup_hist).insert(lowest_equivalent(old(self).setup_hist, at_least_one(us))),
            final(self).pdd_hist == old(self).pdd_hist,
            final(self).dur_hist == old(self).dur_hist,
            final(self).fail_4xx == old(self).fail_4xx,
            final(self).fail_5xx == old(self).fail_5xx,
            final(self).fail_6xx == old(self).fail_6xx,
    {
        let v = if us > 1 {
            us
        } else {
            1
        };
        histogram_record(&mut self.setup_hist, v);
    }

    /// Records a call duration of `us` microseconds (at least 1).
    pub fn record_duration_us(&mut self, us: u64)
        ensures
            detail_bounds(*old(self)) ==> detail_bounds(*final(self)),
            at_least_one(us) <= highest_trackable(old(self).dur_hist) ==> recorded_count(final(self).dur_hist)
                == sat_inc(recorded_count(old(self).dur_hist)),
            recorded_count(final(self).dur_hist) == sat_inc(recorded_count(old(self).dur_hist))
                || recorded_count(final(self).dur_hist) == recorded_count(old(self).dur_hist),
            at_least_one(us) <= highest_trackable(old(self).dur_hist) && bucket_counts(old(self).dur_hist).count(
                lowest_equivalent(old(self).dur_hist, at_least_one(us)),
            ) < u64::MAX ==> bucket_counts(final(self).dur_hist) == bucket_counts(old(self).dur_hist).insert(
                lowest_equivalent(old(self).dur_hist, at_least_one(us)),
            ),
            bucket_counts(final(self).dur_hist) == bucket_counts(old(self).dur_hist) || bucket_counts(
                final(self).dur_hist,
            ) == bucket_counts(old(self).dur_hist).insert(lowest_equivalent(old(self).dur_hist, at_least_one(us))),
            final(self).pdd_hist == old(self).pdd_hist,
            final(self).setup_hist == old(self).setup_hist,
            final(self).fail_4xx == old(self).fail_4xx,
            final(self).fail_5xx == old(self).fail_5xx,
            final(self).fail_6xx == old(self).fail_6xx,
    {
        let v = if us > 1 {
            us
        } else {
            1
        };
        histogram_record(&mut self.dur_hist, v);
    }

    /// Counts a failure with status `code` in its class (4xx, 5xx, 6xx);
    /// other codes are not counted.
    pub fn record_fail_code(&mut self, code: u16)
        ensures
            final(self).fail_4xx == if fail_class(code) == 4 {
                inc64(old(self).fail_4xx)
            } else {
                old(self).fail_4xx
            },
            final(self).fail_5xx == if fail_class(code) == 5 {
                inc64(old(self).fail_5xx)
            } else {
                old(self).fail_5xx
            },
            final(self).fail_6xx == if fail_class(code) == 6 {
                inc64(old(self).fail_6xx)
            } else {
                old(self).fail_6xx
            },
            final(self).pdd_hist == old(self).pdd_hist,
            final(self).setup_hist == old(self).setup_hist,
            final(self).dur_hist == old(self).dur_hist,
    {
        if 400 <= code && code <= 499 {
            self.fail_4xx = self.fail_4xx.wrapping_add(1);
        } else if 500 <= code && code <= 599 {
            self.fail_5xx = self.fail_5xx.wrapping_add(1);
        } else if 600 <= code && code <= 699 {
            self.fail_6xx = self.fail_6xx.wrapping_add(1);
        }
    }
}

} // verus!
