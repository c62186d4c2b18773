//! The sending side of an RTP session: one packet per 20 ms frame, with
//! the sequence number and timestamp running on; and the local ports a
//! session may try.
use vstd::prelude::*;
use crate::rtp::audio::{AudioSource, AudioView, audio_wf, next_frame_of, after_next};
use crate::rtp::packet::{RtpPacket, PacketView, encoding, PT_PCMA};

verus! {

/// The packets of an audio source, numbered on from a first sequence
/// number and timestamp.
pub struct RtpSender {
    source: AudioSource,
    seq: u16,
    ts: u32,
    ssrc: u32,
}

pub struct SenderView {
    pub source: AudioView,
    pub seq: u16,
    pub ts: u32,
    pub ssrc: u32,
}

impl View for RtpSender {
    type V = SenderView;

    closed spec fn view(&self) -> SenderView {
        SenderView { source: self.source@, seq: self.seq, ts: self.ts, ssrc: self.ssrc }
    }
}

/// The packet carrying frame `f` as `v` numbers it (payload type 8, A-law, as the SDP offer says).
pub open spec fn frame_packet(v: SenderView, f: Seq<u8>) -> Seq<u8> {
    encoding(
        PacketView {
            payload_type: PT_PCMA,
            sequence: v.seq,
            timestamp: v.ts,
            ssrc: v.ssrc,
            payload: f,
            received_at_us: None,
        },
    )
}

/// The sender after one packet: the next frame taken, the sequence number
/// one on and the timestamp 160 on (20 ms at 8 kHz), both wrapping.
pub open spec fn sender_step(v: SenderView) -> SenderView {
    SenderView {
        source: after_next(v.source),
        seq: ((v.seq + 1) % 0x1_0000) as u16,
        ts: ((v.ts + 160) % 0x1_0000_0000) as u32,
        ssrc: v.ssrc,
    }
}

/// The sender after `k` packets.
pub open spec fn after_sends(v: SenderView, k: nat) -> SenderView
    decreases k,
{
    if k == 0 {
        v
    } else {
        sender_step(after_sends(v, (k - 1) as nat))
    }
}

/// A sender of a source that does not loop sends each remaining frame once,
/// 160 bytes each, numbered as a looping one is (sequence number on by 1,
/// timestamp on by 160, both wrapping, the same synchronisation source);
/// once the frames are used up it sends nothing more.
pub proof fn lemma_sender_numbering_once(v: SenderView, k: nat)
    requires
        audio_wf(v.source),
        !v.source.looping,
        v.source.cursor + k <= v.source.frames.len(),
    ensures
        audio_wf(after_sends(v, k).source),
        !after_sends(v, k).source.looping,
        after_sends(v, k).source.frames == v.source.frames,
        after_sends(v, k).source.cursor == v.source.cursor + k,
        after_sends(v, k).seq == (v.seq + k) % 0x1_0000,
        after_sends(v, k).ts == (v.ts + 160 * k) % 0x1_0000_0000,
        after_sends(v, k).ssrc == v.ssrc,
        v.source.cursor + k < v.source.frames.len() ==> next_frame_of(after_sends(v, k).source) == Some(
            v.source.frames[(v.source.cursor + k) as int],
        ) && v.source.frames[(v.source.cursor + k) as int].len() == 160,
        v.source.cursor + k == v.source.frames.len() ==> next_frame_of(after_sends(v, k).source) is None,
    decreases k,
{
    if k > 0 {
        lemma_sender_numbering_once(v, (k - 1) as nat);
        let a = v.seq + k - 1;
        let b = v.ts + 160 * (k - 1);
        assert((a % 0x1_0000 + 1) % 0x1_0000 == (a + 1) % 0x1_0000) by (nonlinear_arith)
            requires
                a >= 0,
        ;
        assert((b % 0x1_0000_0000 + 160) % 0x1_0000_0000 == (b + 160) % 0x1_0000_0000) by (nonlinear_arith)
            requires
                b >= 0,
        ;
        assert(v.ts + 160 * k == b + 160) by (nonlinear_arith)
            requires
                b == v.ts + 160 * (k - 1),
        ;
    }
}

/// A sender of a looping source never runs out of packets, and after `k`
/// packets its sequence number has moved on by `k` and its timestamp by
/// `160 k` (both wrapping), with the same synchronisation source.
pub proof fn lemma_sender_numbering(v: SenderView, k: nat)
    requires
        audio_wf(v.source),
        v.source.looping,
    ensures
        next_frame_of(after_sends(v, k).source) is Some,
        audio_wf(after_sends(v, k).source),
        after_sends(v, k).source.looping,
        after_sends(v, k).seq == (v.seq + k) % 0x1_0000,
        after_sends(v, k).ts == (v.ts + 160 * k) % 0x1_0000_0000,
        after_sends(v, k).ssrc == v.ssrc,
    decreases k,
{
    if k > 0 {
        lemma_sender_numbering(v, (k - 1) as nat);
        let p = after_sends(v, (k - 1) as nat);
        let a = v.seq + k - 1;
        let b = v.ts + 160 * (k - 1);
        assert((a % 0x1_0000 + 1) % 0x1_0000 == (a + 1) % 0x1_0000) by (nonlinear_arith)
            requires
                a >= 0,
        ;
        assert((b % 0x1_0000_0000 + 160) % 0x1_0000_0000 == (b + 160) % 0x1_0000_0000) by (nonlinear_arith)
            requires
                b >= 0,
        ;
        assert(v.ts + 160 * k == b + 160) by (nonlinear_arith)
            requires
                b == v.ts + 160 * (k - 1),
        ;
    }
}

impl RtpSender {
    #[verifier::type_invariant]
    spec fn wf(self) -> bool {
        audio_wf(self.source@)
    }

    /// A sender of `source` starting at sequence number `seq` and
    /// timestamp `ts`, with synchronisation source `ssrc`.
    pub fn new(source: AudioSource, seq: u16, ts: u32, ssrc: u32) -> (s: Self)
        requires
            audio_wf(source@),
        ensures
            s@ == (SenderView { source: source@, seq, ts, ssrc }),
    {
        RtpSender { source, seq, ts, ssrc }
    }

    /// The next packet and the length of its payload; `None` once a
    /// non-looping source is played out. Each packet advances the sequence
    /// number by 1 and the timestamp by 160 (20 ms at 8 kHz), both
    /// wrapping.
    pub fn next_packet(&mut self) -> (r: Option<(Vec<u8>, usize)>)
        ensures
            match next_frame_of(old(self)@.source) {
                None => r is None && final(self)@ == old(self)@,
                Some(f) => r matches Some((bytes, n)) && bytes@ == frame_packet(old(self)@, f) && n
                    == f.len() && final(self)@ == sender_step(old(self)@),
            },
    {
        proof {
            use_type_invariant(&*self);
        }
        let mut source = AudioSource::silence();
        std::mem::swap(&mut source, &mut self.source);
        let frame = source.next_frame();
        std::mem::swap(&mut source, &mut self.source);
        match frame {
            None => None,
            Some(f) => {
                let n = f.len();
                let pkt = RtpPacket::new(PT_PCMA, self.seq, self.ts, self.ssrc, f);
                let bytes = pkt.encode();
                self.seq = self.seq.wrapping_add(1);
                self.ts = self.ts.wrapping_add(160);
                Some((bytes, n))
            },
        }
    }
}

/// The ports a session tries from `start`: every second port from it,
/// 2000 of them (wrapping past 65535), leaving out those below 1024.
pub open spec fn port_candidates_from(start: u16) -> Seq<u16> {
    Seq::new(2000, |k: int| ((start + 2 * k) % 0x1_0000) as u16).filter(|p: u16| p >= 1024)
}

/// The ports a session tries, in order, from `start`.
pub fn port_candidates(start: u16) -> (r: Vec<u16>)
    ensures
        r@ == port_candidates_from(start),
{
    let ghost all = Seq::new(2000, |k: int| ((start + 2 * k) % 0x1_0000) as u16);
    let mut r: Vec<u16> = Vec::new();
    let mut k: u16 = 0;
    while k < 2000
        invariant
            k <= 2000,
            all == Seq::new(2000, |k: int| ((start + 2 * k) % 0x1_0000) as u16),
            r@ == all.take(k as int).filter(|p: u16| p >= 1024),
        decreases 2000 - k,
    {
        let p = start.wrapping_add(2 * k);
        assert(all.take(k + 1).drop_last() =~= all.take(k as int));
        assert(all.take(k + 1).last() == p);
        proof {
            all.take(k as int).lemma_filter_push(p, |p: u16| p >= 1024);
            assert(all.take(k as int).push(p) =~= all.take(k + 1));
        }
        if p >= 1024 {
            r.push(p);
        }
        k = k + 1;
    }
    assert(all.take(2000) =~= all);
    r
}

} // verus!
