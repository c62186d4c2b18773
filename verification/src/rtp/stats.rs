//! Reception statistics of an RTP stream (RFC 3550): counters, interarrival
//! jitter (§A.8) and the expected-packet count behind loss (§A.3).
use vstd::prelude::*;

verus! {

/// Counters and sequence state of one RTP stream.
pub struct RtpStats {
    sent_packets: u64,
    sent_bytes: u64,
    recv_packets: u64,
    jitter_x16: u64,
    last_rtp_ts: Option<u32>,
    last_recv_us: Option<u64>,
    last_seq: Option<u16>,
    first_seq: Option<u16>,
    max_seq: Option<u16>,
    seq_cycles: u64,
    out_of_order: u64,
    duplicates: u64,
}

/// The state of an [`RtpStats`], as plain values.
pub struct RtpStatsView {
    pub sent_packets: u64,
    pub sent_bytes: u64,
    pub recv_packets: u64,
    /// Running jitter in 8 kHz ticks, scaled by 16.
    pub jitter_x16: u64,
    pub last_rtp_ts: Option<u32>,
    pub last_recv_us: Option<u64>,
    pub last_seq: Option<u16>,
    pub first_seq: Option<u16>,
    pub max_seq: Option<u16>,
    /// Times the highest sequence number wrapped past 65535.
    pub seq_cycles: u64,
    pub out_of_order: u64,
    pub duplicates: u64,
}

impl View for RtpStats {
    type V = RtpStatsView;

    closed spec fn view(&self) -> RtpStatsView {
        RtpStatsView {
            sent_packets: self.sent_packets,
            sent_bytes: self.sent_bytes,
            recv_packets: self.recv_packets,
            jitter_x16: self.jitter_x16,
            last_rtp_ts: self.last_rtp_ts,
            last_recv_us: self.last_recv_us,
            last_seq: self.last_seq,
            first_seq: self.first_seq,
            max_seq: self.max_seq,
            seq_cycles: self.seq_cycles,
            out_of_order: self.out_of_order,
            duplicates: self.duplicates,
        }
    }
}

/// No packet sent or received.
pub open spec fn stats_empty() -> RtpStatsView {
    RtpStatsView {
        sent_packets: 0,
        sent_bytes: 0,
        recv_packets: 0,
        jitter_x16: 0,
        last_rtp_ts: None,
        last_recv_us: None,
        last_seq: None,
        first_seq: None,
        max_seq: None,
        seq_cycles: 0,
        out_of_order: 0,
        duplicates: 0,
    }
}

/// `a + b` modulo 2^64.
pub open spec fn add64(a: u64, b: int) -> u64 {
    ((a + b) % 0x1_0000_0000_0000_0000) as u64
}

/// `b - a` modulo 2^16: how far sequence number `b` is ahead of `a`.
pub open spec fn seq_ahead(a: u16, b: u16) -> u16 {
    ((b - a + 0x1_0000) % 0x1_0000) as u16
}

/// `b - a` modulo 2^32.
pub open spec fn ts_ahead(a: u32, b: u32) -> u32 {
    ((b - a + 0x1_0000_0000) % 0x1_0000_0000) as u32
}

/// |x|.
pub open spec fn abs(x: int) -> int {
    if x < 0 {
        -x
    } else {
        x
    }
}

/// The jitter estimate after a transit-time difference `d`:
/// `J + d - J/16`, saturating at both ends as `u64`.
pub open spec fn jitter_step(j: u64, d: int) -> u64 {
    let up = if j + d > u64::MAX {
        u64::MAX as int
    } else {
        j + d
    };
    if up - j / 16 < 0 {
        0
    } else {
        (up - j / 16) as u64
    }
}

/// The state after receiving packet `seq` with RTP timestamp `ts` at `us`
/// microseconds, `gap` 8 kHz ticks after the previous packet arrived.
pub open spec fn recv_step(v: RtpStatsView, seq: u16, ts: u32, us: u64, gap: i64) -> RtpStatsView {
    let counted = RtpStatsView { recv_packets: add64(v.recv_packets, 1), ..v };
    let judged = match (v.last_rtp_ts, v.last_recv_us, v.last_seq) {
        (Some(pts), Some(_), Some(pseq)) => if seq_ahead(pseq, seq) == 0 {
            RtpStatsView { duplicates: add64(counted.duplicates, 1), ..counted }
        } else if seq_ahead(pseq, seq) > 0x7fff {
            RtpStatsView { out_of_order: add64(counted.out_of_order, 1), ..counted }
        } else {
            RtpStatsView {
                jitter_x16: jitter_step(counted.jitter_x16, abs(gap - ts_ahead(pts, ts))),
                ..counted
            }
        },
        _ => counted,
    };
    let stamped = RtpStatsView {
        last_rtp_ts: Some(ts),
        last_recv_us: Some(us),
        last_seq: Some(seq),
        ..judged
    };
    match (v.first_seq, v.max_seq) {
        (None, _) => RtpStatsView { first_seq: Some(seq), max_seq: Some(seq), ..stamped },
        (Some(_), Some(m)) => if 0 < seq_ahead(m, seq) <= 0x7fff {
            RtpStatsView {
                max_seq: Some(seq),
                seq_cycles: if seq < m {
                    add64(stamped.seq_cycles, 1)
                } else {
                    stamped.seq_cycles
                },
                ..stamped
            }
        } else {
            stamped
        },
        (Some(_), None) => stamped,
    }
}

/// Packets expected from the first to the highest sequence number
/// (RFC 3550 §A.3: the extended highest number, cycles · 65536 + highest,
/// less the first, plus 1; modulo 2^64), and how many of them did not
/// arrive; (0, 0) before any packet.
pub open spec fn expected_lost(v: RtpStatsView) -> (u64, u64) {
    match (v.first_seq, v.max_seq) {
        (Some(f), Some(m)) => {
            let span = add64(0, v.seq_cycles * 0x1_0000 + m - f + 1);
            (span, if span >= v.recv_packets {
                (span - v.recv_packets) as u64
            } else {
                0
            })
        },
        _ => (0, 0),
    }
}

/// The state after receiving the packets `p` in order, each given as
/// (sequence number, RTP timestamp, arrival µs, gap in 8 kHz ticks).
pub open spec fn recv_all(v: RtpStatsView, p: Seq<(u16, u32, u64, i64)>) -> RtpStatsView
    decreases p.len(),
{
    if p.len() == 0 {
        v
    } else {
        let q = p.last();
        recv_step(recv_all(v, p.drop_last()), q.0, q.1, q.2, q.3)
    }
}

/// The sequence numbers of `p` run on from `start` by one each, modulo 2^16.
pub open spec fn consecutive_from(start: u16, p: Seq<(u16, u32, u64, i64)>) -> bool {
    forall|i: int| 0 <= i < p.len() ==> (#[trigger] p[i]).0 == (start + i) % 0x1_0000
}

#[verifier::spinoff_prover]
#[verifier::rlimit(40)]
proof fn lemma_consecutive_state(start: u16, p: Seq<(u16, u32, u64, i64)>)
    requires
        1 <= p.len() < 0x4000_0000_0000_0000,
        consecutive_from(start, p),
    ensures
        recv_all(stats_empty(), p).first_seq == Some(start),
        recv_all(stats_empty(), p).max_seq == Some(((start + p.len() - 1) % 0x1_0000) as u16),
        recv_all(stats_empty(), p).seq_cycles == (start + p.len() - 1) / 0x1_0000,
        recv_all(stats_empty(), p).recv_packets == p.len(),
    decreases p.len(),
{
    let k = p.len();
    if k == 1 {
        assert(p.drop_last().len() == 0);
        assert(p.last().0 == start) by {
            assert(p[0].0 == (start + 0) % 0x1_0000);
        }
    } else {
        let q = p.drop_last();
        assert(consecutive_from(start, q)) by {
            assert forall|i: int| 0 <= i < q.len() implies (#[trigger] q[i]).0 == (start + i)
                % 0x1_0000 by {
                assert(q[i] == p[i]);
            }
        }
        lemma_consecutive_state(start, q);
        assert(p.last().0 == (start + k - 1) % 0x1_0000) by {
            assert(p[k - 1].0 == (start + (k - 1)) % 0x1_0000);
        }
        let m = (start + k - 2) % 0x1_0000;
        let s = (start + k - 1) % 0x1_0000;
        assert(seq_ahead(m as u16, s as u16) == 1);
        assert((s < m) == (s == 0));
        assert(s == 0 ==> (start + k - 1) / 0x1_0000 == (start + k - 2) / 0x1_0000 + 1);
        assert(s != 0 ==> (start + k - 1) / 0x1_0000 == (start + k - 2) / 0x1_0000);
    }
}

/// A stream received in order with no sequence number missing has nothing
/// lost: n packets from `start` give n expected and 0 lost, across any
/// number of wraps past 65535.
pub proof fn lemma_consecutive_no_loss(start: u16, p: Seq<(u16, u32, u64, i64)>)
    requires
        1 <= p.len() < 0x4000_0000_0000_0000,
        consecutive_from(start, p),
    ensures
        expected_lost(recv_all(stats_empty(), p)) == (p.len() as u64, 0u64),
{
    lemma_consecutive_state(start, p);
    let k = p.len();
    let m = (start + k - 1) % 0x1_0000;
    let c = (start + k - 1) / 0x1_0000;
    assert(start + k - 1 == c * 0x1_0000 + m);
    assert(c * 0x1_0000 + m - start + 1 == k);
}

/// The previous packet's sequence number, RTP timestamp and arrival time
/// are known together, and so are the first and the highest sequence
/// numbers.
pub open spec fn stats_consistent(v: RtpStatsView) -> bool {
    &&& v.last_seq is Some <==> v.last_rtp_ts is Some
    &&& v.last_seq is Some <==> v.last_recv_us is Some
    &&& v.first_seq is Some <==> v.max_seq is Some
}

/// What receiving a packet does to the counters: one more packet received;
/// one more duplicate exactly when it repeats the previous sequence number,
/// one more out-of-order exactly when it is behind the previous one
/// (more than 0x7FFF back modulo 2^16); nothing sent changes.
pub proof fn lemma_recv_counters(v: RtpStatsView, seq: u16, ts: u32, us: u64, gap: i64)
    requires
        stats_consistent(v),
    ensures
        ({
            let w = recv_step(v, seq, ts, us, gap);
            &&& w.recv_packets == add64(v.recv_packets, 1)
            &&& w.duplicates == if v.last_seq == Some(seq) {
                add64(v.duplicates, 1)
            } else {
                v.duplicates
            }
            &&& w.out_of_order == if (v.last_seq matches Some(p) && seq_ahead(p, seq) > 0x7fff) {
                add64(v.out_of_order, 1)
            } else {
                v.out_of_order
            }
            &&& w.sent_packets == v.sent_packets
            &&& w.sent_bytes == v.sent_bytes
            &&& w.last_seq == Some(seq)
            &&& stats_consistent(w)
        }),
{
    match v.last_seq {
        Some(p) => {
            assert(seq_ahead(p, seq) == 0 <==> p == seq);
        },
        None => {},
    }
}

/// The interarrival jitter of RFC 3550 §A.8, scaled by 16: a packet in
/// order after the previous one changes `J` to `J + |D| - J/16`
/// (saturating), where `D` is how much later it arrived than it was sent
/// compared with the previous one: the arrival gap in 8 kHz ticks less the
/// RTP timestamp step (modulo 2^32). A packet that came early (negative
/// `D`) counts as much as one equally late.
pub proof fn lemma_jitter_step(
    v: RtpStatsView,
    pts: u32,
    pseq: u16,
    seq: u16,
    ts: u32,
    us: u64,
    gap: i64,
)
    requires
        v.last_rtp_ts == Some(pts),
        v.last_recv_us is Some,
        v.last_seq == Some(pseq),
        0 < (seq - pseq + 0x1_0000) % 0x1_0000 <= 0x7fff,
    ensures
        ({
            let step = (ts - pts + 0x1_0000_0000) % 0x1_0000_0000;
            let d = gap - step;
            let mag = if d < 0 {
                -d
            } else {
                d
            };
            let j = v.jitter_x16 as int;
            let up = if j + mag > u64::MAX {
                u64::MAX as int
            } else {
                j + mag
            };
            recv_step(v, seq, ts, us, gap).jitter_x16 == if up - j / 16 < 0 {
                0
            } else {
                up - j / 16
            }
        }),
{
}

/// Jitter does not tell early from late: two packets whose transit
/// differences are `D` and `-D` leave the same jitter.
pub proof fn lemma_jitter_symmetric(
    v: RtpStatsView,
    pts: u32,
    pseq: u16,
    seq: u16,
    ts1: u32,
    gap1: i64,
    ts2: u32,
    gap2: i64,
    us: u64,
)
    requires
        v.last_rtp_ts == Some(pts),
        v.last_recv_us is Some,
        v.last_seq == Some(pseq),
        0 < (seq - pseq + 0x1_0000) % 0x1_0000 <= 0x7fff,
        gap1 - (ts1 - pts + 0x1_0000_0000) % 0x1_0000_0000 == -(gap2 - (ts2 - pts + 0x1_0000_0000)
            % 0x1_0000_0000),
    ensures
        recv_step(v, seq, ts1, us, gap1).jitter_x16 == recv_step(v, seq, ts2, us, gap2).jitter_x16,
{
    lemma_jitter_step(v, pts, pseq, seq, ts1, us, gap1);
    lemma_jitter_step(v, pts, pseq, seq, ts2, us, gap2);
}

impl RtpStats {
    #[verifier::type_invariant]
    spec fn consistent(self) -> bool {
        stats_consistent(self@)
    }

    pub fn new() -> (s: Self)
        ensures
            s@ == stats_empty(),
            stats_consistent(s@),
    {
        RtpStats {
            sent_packets: 0,
            sent_bytes: 0,
            recv_packets: 0,
            jitter_x16: 0,
            last_rtp_ts: None,
            last_recv_us: None,
            last_seq: None,
            first_seq: None,
            max_seq: None,
            seq_cycles: 0,
            out_of_order: 0,
            duplicates: 0,
        }
    }

    /// Counts a sent packet of `payload_size` bytes.
    pub fn on_send(&mut self, payload_size: usize)
        ensures
            final(self)@ == (RtpStatsView {
                sent_packets: add64(old(self)@.sent_packets, 1),
                sent_bytes: add64(old(self)@.sent_bytes, payload_size as int),
                ..old(self)@
            }),
            stats_consistent(final(self)@),
    {
        proof {
            use_type_invariant(&*self);
        }
        self.sent_packets = self.sent_packets.wrapping_add(1);
        self.sent_bytes = self.sent_bytes.wrapping_add(payload_size as u64);
    }

    /// Counts a received packet: sequence number `seq`, RTP timestamp
    /// `rtp_ts`, arrival at `recv_us` microseconds, and `recv_gap_8k`, the
    /// time since the previous packet arrived in 8 kHz ticks (measured by
    /// the caller's clock; unused for the first packet).
    pub fn on_recv(&mut self, seq: u16, rtp_ts: u32, recv_us: u64, recv_gap_8k: i64)
        ensures
            final(self)@ == recv_step(old(self)@, seq, rtp_ts, recv_us, recv_gap_8k),
            stats_consistent(old(self)@),
            stats_consistent(final(self)@),
    {
        proof {
            use_type_invariant(&*self);
        }
        self.recv_packets = self.recv_packets.wrapping_add(1);
        match (self.last_rtp_ts, self.last_recv_us, self.last_seq) {
            (Some(prev_ts), Some(_), Some(prev_seq)) => {
                let seq_diff = seq.wrapping_sub(prev_seq);
                if seq_diff == 0 {
                    self.duplicates = self.duplicates.wrapping_add(1);
                } else if seq_diff > 0x7fff {
                    self.out_of_order = self.out_of_order.wrapping_add(1);
                } else {
                    let rtp_diff = rtp_ts.wrapping_sub(prev_ts) as i128;
                    let diff = recv_gap_8k as i128 - rtp_diff;
                    let d: u64 = if diff < 0 {
                        (-diff) as u64
                    } else {
                        diff as u64
                    };
                    let j = self.jitter_x16;
                    self.jitter_x16 = j.saturating_add(d).saturating_sub(j / 16);
                }
            },
            _ => {},
        }
        *self = RtpStats {
            last_rtp_ts: Some(rtp_ts),
            last_recv_us: Some(recv_us),
            last_seq: Some(seq),
            ..*self
        };
        match (self.first_seq, self.max_seq) {
            (None, _) => {
                *self = RtpStats { first_seq: Some(seq), max_seq: Some(seq), ..*self };
            },
            (Some(_), Some(prev_max)) => {
                let diff = seq.wrapping_sub(prev_max);
                if diff > 0 && diff <= 0x7fff {
                    if seq < prev_max {
                        self.seq_cycles = self.seq_cycles.wrapping_add(1);
                    }
                    self.max_seq = Some(seq);
                }
            },
            (Some(_), None) => {},
        }
    }

    /// Arrival time of the last packet received, in microseconds.
    pub fn last_recv_us(&self) -> (r: Option<u64>)
        ensures
            r == self@.last_recv_us,
    {
        self.last_recv_us
    }

    /// (expected, lost) packets, from the sequence numbers seen.
    pub fn expected_and_lost(&self) -> (r: (u64, u64))
        ensures
            r == expected_lost(self@),
    {
        match (self.first_seq, self.max_seq) {
            (Some(f), Some(m)) => {
                let span = self.seq_cycles.wrapping_mul(0x1_0000).wrapping_add(m as u64).wrapping_sub(
                    f as u64,
                ).wrapping_add(1);
                (span, span.saturating_sub(self.recv_packets))
            },
            _ => (0, 0),
        }
    }

    pub fn sent_packets(&self) -> (r: u64)
        ensures
            r == self@.sent_packets,
    {
        self.sent_packets
    }

    pub fn sent_bytes(&self) -> (r: u64)
        ensures
            r == self@.sent_bytes,
    {
        self.sent_bytes
    }

    pub fn recv_packets(&self) -> (r: u64)
        ensures
            r == self@.recv_packets,
    {
        self.recv_packets
    }

    pub fn out_of_order(&self) -> (r: u64)
        ensures
            r == self@.out_of_order,
    {
        self.out_of_order
    }

    pub fn duplicates(&self) -> (r: u64)
        ensures
            r == self@.duplicates,
    {
        self.duplicates
    }

    /// The running jitter in 8 kHz ticks, scaled by 16 (RFC 3550 §A.8).
    pub fn jitter_x16(&self) -> (r: u64)
        ensures
            r == self@.jitter_x16,
    {
        self.jitter_x16
    }
}

} // verus!
