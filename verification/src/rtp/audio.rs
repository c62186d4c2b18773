//! G.711 audio: the A-law and μ-law codecs, WAV parsing, and the source of
//! 20 ms frames (160 bytes of A-law at 8 kHz) that a call plays in a loop.
use vstd::prelude::*;

verus! {

// ─── A-law ───────────────────────────────────────────────────────────

/// Magnitude coded by an A-law byte `x` whose even bits were already
/// inverted, on the 16-bit scale: the 4 mantissa bits times 16 plus half a
/// step (8) in segment 0; in the other segments with the leading bit and
/// half a step (0x108), shifted left by the segment less 1.
pub open spec fn alaw_magnitude(x: u32) -> u32 {
    let t = (x & 0x0f) << 4u32;
    let seg = (x & 0x70) >> 4u32;
    if seg == 0 {
        (t + 8) as u32
    } else if seg == 1 {
        (t + 0x108) as u32
    } else {
        ((t + 0x108) as u32) << ((seg - 1) as u32)
    }
}

/// A-law byte `a` decoded to a linear sample: bits 0x55 inverted, the sign
/// bit set meaning positive.
pub open spec fn alaw_decode(a: u8) -> i16 {
    let x = (a ^ 0x55u8) as u32;
    let m = alaw_magnitude(x);
    if x & 0x80 != 0 {
        m as i16
    } else {
        (0 - m) as i16
    }
}

/// G.711 A-law byte to linear 16-bit PCM.
pub fn alaw_to_linear(a: u8) -> (r: i16)
    ensures
        r == alaw_decode(a),
{
    let x = (a ^ 0x55u8) as u32;
    let t = (x & 0x0f) << 4u32;
    let seg = (x & 0x70) >> 4u32;
    proof {
        assert(t <= 240 && seg <= 7) by (bit_vector)
            requires
                t == (x & 0x0f) << 4u32,
                seg == (x & 0x70) >> 4u32,
        ;
    }
    let m: u32 = if seg == 0 {
        t + 8
    } else if seg == 1 {
        t + 0x108
    } else {
        (t + 0x108) << (seg - 1)
    };
    proof {
        assert(m == alaw_magnitude(x));
        assert(x < 256 ==> alaw_magnitude(x) <= 32256) by (bit_vector);
    }
    if x & 0x80 != 0 {
        m as i16
    } else {
        -(m as i16)
    }
}

/// The A-law segment of a magnitude `p` on the 13-bit scale: the first `i`
/// with `p < 2^(i+5)`, 8 past the last segment.
pub open spec fn alaw_segment(p: u32) -> u32 {
    if p <= 0x1F {
        0
    } else if p <= 0x3F {
        1
    } else if p <= 0x7F {
        2
    } else if p <= 0xFF {
        3
    } else if p <= 0x1FF {
        4
    } else if p <= 0x3FF {
        5
    } else if p <= 0x7FF {
        6
    } else if p <= 0xFFF {
        7
    } else {
        8
    }
}

/// A linear sample encoded in A-law: the sample shifted down to 13 bits
/// (rounding down), a negative value `v` taken as `-v - 1`, split into
/// segment and 4 mantissa bits, then the even bits inverted and the sign
/// bit set for non-negative samples.
pub open spec fn alaw_encode(sample: i16) -> u8 {
    let mask: u8 = if sample >= 0 {
        0xD5
    } else {
        0x55
    };
    let p: u32 = if sample >= 0 {
        (sample as u32) >> 3u32
    } else {
        ((-1 - sample) as u32) >> 3u32
    };
    let seg = alaw_segment(p);
    if seg >= 8 {
        0x7Fu8 ^ mask
    } else {
        let mant: u32 = if seg < 2 {
            (p >> 1u32) & 0x0f
        } else {
            (p >> seg) & 0x0f
        };
        (((seg << 4u32) | mant) as u8) ^ mask
    }
}

/// Linear 16-bit PCM to G.711 A-law.
pub fn linear_to_alaw(sample: i16) -> (r: u8)
    ensures
        r == alaw_encode(sample),
{
    let mask: u8 = if sample >= 0 {
        0xD5
    } else {
        0x55
    };
    let p: u32 = if sample >= 0 {
        (sample as u32) >> 3u32
    } else {
        ((-1 - (sample as i32)) as u32) >> 3u32
    };
    let seg: u32 = if p <= 0x1F {
        0
    } else if p <= 0x3F {
        1
    } else if p <= 0x7F {
        2
    } else if p <= 0xFF {
        3
    } else if p <= 0x1FF {
        4
    } else if p <= 0x3FF {
        5
    } else if p <= 0x7FF {
        6
    } else if p <= 0xFFF {
        7
    } else {
        8
    };
    if seg >= 8 {
        return 0x7Fu8 ^ mask;
    }
    let mant: u32 = if seg < 2 {
        (p >> 1u32) & 0x0f
    } else {
        (p >> seg) & 0x0f
    };
    (((seg << 4u32) | mant) as u8) ^ mask
}

/// Decoding an A-law byte and encoding the sample again gives the byte
/// back, for every byte.
pub proof fn lemma_alaw_roundtrip(a: u8)
    ensures
        alaw_encode(alaw_decode(a)) == a,
{
    assert(alaw_encode(alaw_decode(a)) == a) by (bit_vector);
}

// ─── μ-law ───────────────────────────────────────────────────────────

/// The μ-law exponent of bits 7..14 of the biased magnitude: the position
/// of their highest set bit, 0 for 0 and 1.
pub open spec fn ulaw_exponent(i: u32) -> u32 {
    if i < 2 {
        0
    } else if i < 4 {
        1
    } else if i < 8 {
        2
    } else if i < 16 {
        3
    } else if i < 32 {
        4
    } else if i < 64 {
        5
    } else if i < 128 {
        6
    } else {
        7
    }
}

/// A linear sample encoded in μ-law: the magnitude biased by 0x84 and
/// clipped at 32635, exponent and 4 mantissa bits, sign bit for negative
/// samples, all bits inverted.
pub open spec fn ulaw_encode(sample: i16) -> u8 {
    let sign: u32 = if sample < 0 {
        0x80
    } else {
        0
    };
    let a: u32 = if sample < 0 {
        (0 - sample) as u32
    } else {
        sample as u32
    };
    let s: u32 = if a + 0x84 > 32635 {
        32635
    } else {
        (a + 0x84) as u32
    };
    let e = ulaw_exponent((s >> 7u32) & 0xff);
    let m = (s >> ((e + 3) as u32)) & 0x0f;
    !((sign | (e << 4u32) | m) as u8)
}

/// Linear 16-bit PCM to G.711 μ-law.
pub fn linear_to_ulaw(sample: i16) -> (r: u8)
    ensures
        r == ulaw_encode(sample),
{
    let sign: u32 = if sample < 0 {
        0x80
    } else {
        0
    };
    let a: u32 = if sample < 0 {
        (0 - (sample as i32)) as u32
    } else {
        sample as u32
    };
    let s: u32 = if a + 0x84 > 32635 {
        32635
    } else {
        a + 0x84
    };
    let i = (s >> 7u32) & 0xff;
    let e: u32 = if i < 2 {
        0
    } else if i < 4 {
        1
    } else if i < 8 {
        2
    } else if i < 16 {
        3
    } else if i < 32 {
        4
    } else if i < 64 {
        5
    } else if i < 128 {
        6
    } else {
        7
    };
    let m = (s >> (e + 3)) & 0x0f;
    !((sign | (e << 4u32) | m) as u8)
}

/// The linear value of a μ-law byte `x` whose bits were already inverted,
/// before the sign: `(8·mantissa + 0x84)·2^exponent`.
pub open spec fn ulaw_biased(x: u32) -> u32 {
    ((((x & 0x0f) << 3u32) + 0x84) as u32) << ((x & 0x70) >> 4u32)
}

/// A μ-law byte decoded to a linear sample: bits inverted, then the
/// biased value less the bias 0x84, negative when the sign bit is set.
pub open spec fn ulaw_decode(u: u8) -> i16 {
    let x = (!u) as u32;
    let t = ulaw_biased(x);
    if x & 0x80 != 0 {
        (0x84 - t) as i16
    } else {
        (t - 0x84) as i16
    }
}

/// G.711 μ-law to linear 16-bit PCM.
pub fn ulaw_to_linear(ulaw: u8) -> (r: i16)
    ensures
        r == ulaw_decode(ulaw),
{
    let x = (!ulaw) as u32;
    proof {
        assert(((x & 0x0f) << 3u32) <= 120 && ((x & 0x70) >> 4u32) <= 7) by (bit_vector);
    }
    let b = ((x & 0x0f) << 3u32) + 0x84;
    let t = b << ((x & 0x70) >> 4u32);
    proof {
        assert(x < 256 ==> 0x84 <= ulaw_biased(x) <= 32256) by (bit_vector);
        assert(t == ulaw_biased(x));
    }
    if x & 0x80 != 0 {
        (0x84 - (t as i32)) as i16
    } else {
        ((t as i32) - 0x84) as i16
    }
}

/// Decoding a μ-law byte and encoding the sample again gives the byte
/// back, except for 0x7F (negative zero), which comes back as 0xFF.
pub proof fn lemma_ulaw_roundtrip(u: u8)
    ensures
        u != 0x7F ==> ulaw_encode(ulaw_decode(u)) == u,
        ulaw_encode(ulaw_decode(0x7F)) == 0xFF,
{
    assert(u != 0x7F ==> ulaw_encode(ulaw_decode(u)) == u) by (bit_vector);
    assert(ulaw_encode(ulaw_decode(0x7Fu8)) == 0xFFu8) by (bit_vector);
}

// ─── the frame source ───────────────────────────────────────────────

/// Bytes in one 20 ms frame of G.711 at 8 kHz.
pub const FRAME_BYTES: usize = 160;

/// Errors in reading audio.
#[derive(Debug, Clone, Copy, PartialEq, Eq, Structural)]
pub enum AudioError {
    /// Less than one whole frame of audio.
    TooShort,
    /// A WAV file smaller than its 44-byte header.
    WavTooSmall,
    /// No `RIFF` at the start.
    NotRiff,
    /// No `WAVE` form type.
    NotWave,
    /// No usable `fmt ` chunk.
    NoFmtChunk,
    /// No `data` chunk.
    NoDataChunk,
    /// A PCM file that is not 16-bit; the bits per sample it has.
    PcmBits(u16),
    /// An A-law file that is not 8-bit; the bits per sample it has.
    AlawBits(u16),
    /// A μ-law file that is not 8-bit; the bits per sample it has.
    UlawBits(u16),
    /// A WAV format tag other than PCM (1), A-law (6) or μ-law (7).
    UnsupportedFormat(u16),
}

/// A looping source of 160-byte A-law frames.
pub struct AudioSource {
    frames: Vec<Vec<u8>>,
    cursor: usize,
    /// Whether playback starts over after the last frame.
    pub looping: bool,
    /// RTP payload type of the frames: 8 (PCMA).
    pub payload_type: u8,
}

pub struct AudioView {
    pub frames: Seq<Seq<u8>>,
    pub cursor: nat,
    pub looping: bool,
    pub payload_type: u8,
}

impl View for AudioSource {
    type V = AudioView;

    closed spec fn view(&self) -> AudioView {
        AudioView {
            frames: Seq::new(self.frames@.len(), |i: int| self.frames@[i]@),
            cursor: self.cursor as nat,
            looping: self.looping,
            payload_type: self.payload_type,
        }
    }
}

/// Every frame 160 bytes, at least one frame when looping, and the cursor
/// within or just past them.
pub open spec fn audio_wf(a: AudioView) -> bool {
    &&& a.looping ==> a.frames.len() > 0
    &&& a.cursor <= a.frames.len()
    &&& forall|i: int| 0 <= i < a.frames.len() ==> (#[trigger] a.frames[i]).len() == 160
}

/// Where the next frame comes from: the start again after the last frame
/// when looping.
pub open spec fn next_index(a: AudioView) -> nat {
    if a.cursor >= a.frames.len() && a.looping {
        0
    } else {
        a.cursor
    }
}

/// The frame the source gives next, `None` once a non-looping source is
/// played out.
pub open spec fn next_frame_of(a: AudioView) -> Option<Seq<u8>> {
    if next_index(a) >= a.frames.len() {
        None
    } else {
        Some(a.frames[next_index(a) as int])
    }
}

/// The source after giving its next frame.
pub open spec fn after_next(a: AudioView) -> AudioView {
    if next_index(a) >= a.frames.len() {
        a
    } else {
        AudioView { cursor: next_index(a) + 1, ..a }
    }
}

/// The bytes `data[160·i .. 160·i + 160]`, for each whole frame `i`.
pub open spec fn frames_of(data: Seq<u8>) -> Seq<Seq<u8>> {
    Seq::new(data.len() / 160, |i: int| data.subrange(160 * i, 160 * i + 160))
}

/// One frame of A-law silence (`0xD5` encodes 0).
pub open spec fn silent_frame() -> Seq<u8> {
    Seq::new(160, |i: int| 0xD5u8)
}

impl AudioSource {
    /// Silence: 50 frames (one second) of A-law zero, looping.
    pub fn silence() -> (s: Self)
        ensures
            s@.frames == Seq::new(50, |i: int| silent_frame()),
            s@.cursor == 0,
            s@.looping,
            s@.payload_type == 8,
            audio_wf(s@),
    {
        let mut frames: Vec<Vec<u8>> = Vec::new();
        let mut k: usize = 0;
        while k < 50
            invariant
                k <= 50,
                frames@.len() == k,
                forall|j: int| 0 <= j < k ==> #[trigger] frames@[j]@ == silent_frame(),
            decreases 50 - k,
        {
            let mut f: Vec<u8> = Vec::new();
            let mut b: usize = 0;
            while b < 160
                invariant
                    b <= 160,
                    f@ == Seq::new(b as nat, |i: int| 0xD5u8),
                decreases 160 - b,
            {
                f.push(0xD5);
                b += 1;
                assert(f@ =~= Seq::new(b as nat, |i: int| 0xD5u8));
            }
            frames.push(f);
            k += 1;
        }
        let s = AudioSource { frames, cursor: 0, looping: true, payload_type: 8 };
        assert(s@.frames =~= Seq::new(50, |i: int| silent_frame()));
        s
    }

    /// A looping source of the whole 160-byte frames of A-law `bytes`
    /// (a partial last frame is dropped); an error when there is none.
    pub fn from_pcma(bytes: &Vec<u8>) -> (r: Result<Self, AudioError>)
        ensures
            r matches Ok(s) ==> s@.frames == frames_of(bytes@) && s@.cursor == 0 && s@.looping
                && s@.payload_type == 8 && audio_wf(s@),
            r is Err <==> frames_of(bytes@).len() == 0,
            r matches Err(e) ==> e == AudioError::TooShort,
    {
        let frames = Self::split_frames(bytes);
        if frames.len() == 0 {
            return Err(AudioError::TooShort);
        }
        let s = AudioSource { frames, cursor: 0, looping: true, payload_type: 8 };
        assert(s@.frames =~= frames_of(bytes@));
        Ok(s)
    }

    /// The whole 160-byte frames of `data`.
    pub fn split_frames(data: &Vec<u8>) -> (r: Vec<Vec<u8>>)
        ensures
            r@.len() == frames_of(data@).len(),
            forall|i: int| 0 <= i < r@.len() ==> #[trigger] r@[i]@ == frames_of(data@)[i],
    {
        let len = data.len();
        let n = len / 160;
        let mut r: Vec<Vec<u8>> = Vec::new();
        let mut k: usize = 0;
        while k < n
            invariant
                n == data@.len() / 160,
                len == data@.len(),
                k <= n,
                r@.len() == k,
                forall|j: int| 0 <= j < k ==> #[trigger] r@[j]@ == data@.subrange(160 * j, 160 * j + 160),
            decreases n - k,
        {
            proof {
                let len = data@.len() as int;
                assert(160 * k + 160 <= len && len <= usize::MAX) by (nonlinear_arith)
                    requires
                        k < n,
                        n == len / 160,
                        len >= 0,
                        len <= usize::MAX,
                ;
            }
            let base = 160 * k;
            let mut f: Vec<u8> = Vec::new();
            let mut b: usize = 0;
            while b < 160
                invariant
                    k < n,
                    n == data@.len() / 160,
                    base == 160 * k,
                    base + 160 <= data@.len(),
                    data@.len() == data.len(),
                    b <= 160,
                    f@ == data@.subrange(base as int, base + b),
                decreases 160 - b,
            {
                f.push(data[base + b]);
                b += 1;
                assert(f@ =~= data@.subrange(base as int, base + b));
            }
            r.push(f);
            k += 1;
        }
        r
    }

    /// The next 20 ms frame; `None` once a non-looping source is played out.
    pub fn next_frame(&mut self) -> (r: Option<Vec<u8>>)
        requires
            audio_wf(old(self)@),
        ensures
            match r {
                Some(f) => next_frame_of(old(self)@) == Some(f@),
                None => next_frame_of(old(self)@) is None,
            },
            final(self)@ == after_next(old(self)@),
            audio_wf(final(self)@),
    {
        if self.cursor >= self.frames.len() {
            if self.looping {
                self.cursor = 0;
            } else {
                return None;
            }
        }
        let frame = self.frames[self.cursor].clone();
        self.cursor += 1;
        assert(self@.frames =~= old(self)@.frames);
        Some(frame)
    }

    /// Back to the first frame.
    pub fn reset(&mut self)
        ensures
            final(self)@ == (AudioView { cursor: 0, ..old(self)@ }),
    {
        self.cursor = 0;
        assert(self@.frames =~= old(self)@.frames);
    }

    /// Number of frames (20 ms each).
    pub fn frame_count(&self) -> (n: usize)
        ensures
            n == self@.frames.len(),
    {
        self.frames.len()
    }
}

/// The source after `k` frames were taken.
pub open spec fn after_frames(a: AudioView, k: nat) -> AudioView
    decreases k,
{
    if k == 0 {
        a
    } else {
        after_next(after_frames(a, (k - 1) as nat))
    }
}

proof fn lemma_frame_length(a: AudioView, k: nat)
    requires
        audio_wf(a),
        a.frames.len() > 0,
    ensures
        a.frames[(k as int) % (a.frames.len() as int)].len() == 160,
{
    let n = a.frames.len() as int;
    assert(0 <= (k as int) % n < n) by (nonlinear_arith)
        requires
            n > 0,
    ;
}

proof fn lemma_looping_order(a: AudioView, k: nat)
    requires
        a.frames.len() > 0,
        a.looping,
        a.cursor == 0,
    ensures
        after_frames(a, k).cursor == (if k == 0 { 0 } else { (((k as int) - 1) % (a.frames.len() as int)) + 1 }),
        next_frame_of(after_frames(a, k)) == Some(a.frames[(k as int) % (a.frames.len() as int)]),
        after_frames(a, k).frames == a.frames,
        after_frames(a, k).looping,
    decreases k,
{
    let n = a.frames.len() as int;
    if k > 0 {
        lemma_looping_order(a, (k - 1) as nat);
        let prev = after_frames(a, (k - 1) as nat);
        assert(next_index(prev) == ((k as int) - 1) % n) by {
            if k - 1 == 0 {
            } else {
                let c = (((k as int) - 2) % n) + 1;
                assert(prev.cursor == c);
                if c >= n {
                    assert(((k as int) - 2) % n == n - 1);
                    assert(((k as int) - 1) % n == 0) by (nonlinear_arith)
                        requires
                            ((k as int) - 2) % n == n - 1,
                            k >= 2,
                            n > 0,
                    ;
                } else {
                    assert(((k as int) - 1) % n == ((k as int) - 2) % n + 1) by (nonlinear_arith)
                        requires
                            ((k as int) - 2) % n + 1 < n,
                            k >= 2,
                            n > 0,
                    ;
                }
            }
        }
    }
    let cur = after_frames(a, k);
    if k > 0 {
        assert(next_index(cur) == (k as int) % n) by {
            let c = (((k as int) - 1) % n) + 1;
            if c >= n {
                assert((k as int) % n == 0) by (nonlinear_arith)
                    requires
                        ((k as int) - 1) % n + 1 >= n,
                        k >= 1,
                        n > 0,
                ;
            } else {
                assert((k as int) % n == ((k as int) - 1) % n + 1) by (nonlinear_arith)
                    requires
                        ((k as int) - 1) % n + 1 < n,
                        k >= 1,
                        n > 0,
                ;
            }
        }
    }
}

/// A looping source plays its frames in order, over and over: after a
/// reset, the `k`-th frame it gives is frame `k mod frame_count`, 160 bytes
/// long, and the frames stay as they were.
pub proof fn lemma_looping_playback(a: AudioView, k: nat)
    requires
        audio_wf(a),
        a.looping,
        a.cursor == 0,
    ensures
        after_frames(a, k).cursor == (if k == 0 { 0 } else { (((k as int) - 1) % (a.frames.len() as int)) + 1 }),
        next_frame_of(after_frames(a, k)) == Some(a.frames[(k as int) % (a.frames.len() as int)]),
        a.frames[(k as int) % (a.frames.len() as int)].len() == 160,
        after_frames(a, k).frames == a.frames,
        after_frames(a, k).looping,
{
    lemma_looping_order(a, k);
    lemma_frame_length(a, k);
}

/// A source that does not loop plays its frames once, in order: after a
/// reset, the `k`-th frame it gives is frame `k` while `k < frame_count`,
/// and from then on every call gives `None` (until the next reset).
pub proof fn lemma_playback_ends(a: AudioView, k: nat)
    requires
        audio_wf(a),
        !a.looping,
        a.cursor == 0,
    ensures
        after_frames(a, k).frames == a.frames,
        !after_frames(a, k).looping,
        after_frames(a, k).cursor == if k < a.frames.len() {
            k
        } else {
            a.frames.len()
        },
        k < a.frames.len() ==> next_frame_of(after_frames(a, k)) == Some(a.frames[k as int]),
        k >= a.frames.len() ==> next_frame_of(after_frames(a, k)) is None,
    decreases k,
{
    if k > 0 {
        lemma_playback_ends(a, (k - 1) as nat);
    }
}

// ─── sample conversions ──────────────────────────────────────────────

/// μ-law bytes re-encoded in A-law, through linear PCM.
pub open spec fn ulaw_to_alaw_seq(raw: Seq<u8>) -> Seq<u8> {
    Seq::new(raw.len(), |i: int| alaw_encode(ulaw_decode(raw[i])))
}

pub fn ulaw_bytes_to_alaw(raw: &Vec<u8>) -> (r: Vec<u8>)
    ensures
        r@ == ulaw_to_alaw_seq(raw@),
{
    let mut r: Vec<u8> = Vec::new();
    let mut i: usize = 0;
    while i < raw.len()
        invariant
            i <= raw@.len(),
            r@ == ulaw_to_alaw_seq(raw@.take(i as int)),
        decreases raw@.len() - i,
    {
        r.push(linear_to_alaw(ulaw_to_linear(raw[i])));
        i += 1;
        assert(r@ =~= ulaw_to_alaw_seq(raw@.take(i as int)));
    }
    assert(raw@.take(raw@.len() as int) =~= raw@);
    r
}

/// Linear samples encoded in A-law.
pub open spec fn alaw_encode_seq(s: Seq<i16>) -> Seq<u8> {
    Seq::new(s.len(), |i: int| alaw_encode(s[i]))
}

pub fn linear_to_alaw_all(samples: &Vec<i16>) -> (r: Vec<u8>)
    ensures
        r@ == alaw_encode_seq(samples@),
{
    let mut r: Vec<u8> = Vec::new();
    let mut i: usize = 0;
    while i < samples.len()
        invariant
            i <= samples@.len(),
            r@ == alaw_encode_seq(samples@.take(i as int)),
        decreases samples@.len() - i,
    {
        r.push(linear_to_alaw(samples[i]));
        i += 1;
        assert(r@ =~= alaw_encode_seq(samples@.take(i as int)));
    }
    assert(samples@.take(samples@.len() as int) =~= samples@);
    r
}

/// A-law bytes decoded to linear samples.
pub open spec fn alaw_decode_seq(b: Seq<u8>) -> Seq<i16> {
    Seq::new(b.len(), |i: int| alaw_decode(b[i]))
}

pub fn alaw_to_linear_all(bytes: &Vec<u8>) -> (r: Vec<i16>)
    ensures
        r@ == alaw_decode_seq(bytes@),
{
    let mut r: Vec<i16> = Vec::new();
    let mut i: usize = 0;
    while i < bytes.len()
        invariant
            i <= bytes@.len(),
            r@ == alaw_decode_seq(bytes@.take(i as int)),
        decreases bytes@.len() - i,
    {
        r.push(alaw_to_linear(bytes[i]));
        i += 1;
        assert(r@ =~= alaw_decode_seq(bytes@.take(i as int)));
    }
    assert(bytes@.take(bytes@.len() as int) =~= bytes@);
    r
}

/// μ-law bytes decoded to linear samples.
pub open spec fn ulaw_decode_seq(b: Seq<u8>) -> Seq<i16> {
    Seq::new(b.len(), |i: int| ulaw_decode(b[i]))
}

pub fn ulaw_to_linear_all(bytes: &Vec<u8>) -> (r: Vec<i16>)
    ensures
        r@ == ulaw_decode_seq(bytes@),
{
    let mut r: Vec<i16> = Vec::new();
    let mut i: usize = 0;
    while i < bytes.len()
        invariant
            i <= bytes@.len(),
            r@ == ulaw_decode_seq(bytes@.take(i as int)),
        decreases bytes@.len() - i,
    {
        r.push(ulaw_to_linear(bytes[i]));
        i += 1;
        assert(r@ =~= ulaw_decode_seq(bytes@.take(i as int)));
    }
    assert(bytes@.take(bytes@.len() as int) =~= bytes@);
    r
}

/// Half of `x`, rounded toward zero (Rust's integer division by 2).
pub open spec fn half_toward_zero(x: int) -> int {
    if x >= 0 {
        x / 2
    } else {
        -((-x) / 2)
    }
}

/// Stereo samples (left, right, left, ...) mixed to mono: the mean of each
/// whole pair, rounded toward zero.
pub open spec fn mono_of(s: Seq<i16>) -> Seq<i16> {
    Seq::new(s.len() / 2, |i: int| half_toward_zero(s[2 * i] + s[2 * i + 1]) as i16)
}

pub fn stereo_to_mono(samples: &Vec<i16>) -> (r: Vec<i16>)
    ensures
        r@ == mono_of(samples@),
{
    let len = samples.len();
    let n = len / 2;
    let mut r: Vec<i16> = Vec::new();
    let mut i: usize = 0;
    while i < n
        invariant
            n == samples@.len() / 2,
            len == samples@.len(),
            i <= n,
            r@ == mono_of(samples@).take(i as int),
        decreases n - i,
    {
        assert(2 * i + 1 < samples@.len());
        let sum = samples[2 * i] as i32 + samples[2 * i + 1] as i32;
        let h: i32 = if sum >= 0 {
            sum / 2
        } else {
            -((-sum) / 2)
        };
        r.push(h as i16);
        i += 1;
        assert(r@ =~= mono_of(samples@).take(i as int));
    }
    assert(mono_of(samples@).take(n as int) =~= mono_of(samples@));
    r
}

/// Every other byte, starting with the first (the left channel of
/// interleaved 8-bit stereo).
pub open spec fn every_other(b: Seq<u8>) -> Seq<u8> {
    Seq::new(((b.len() + 1) / 2) as nat, |i: int| b[2 * i])
}

pub fn left_channel(bytes: &Vec<u8>) -> (r: Vec<u8>)
    ensures
        r@ == every_other(bytes@),
{
    let len = bytes.len();
    let n = len / 2 + len % 2;
    assert(n == (len + 1) / 2);
    let mut r: Vec<u8> = Vec::new();
    let mut k: usize = 0;
    while k < n
        invariant
            len == bytes@.len(),
            n == (len + 1) / 2,
            k <= n,
            r@ == every_other(bytes@).take(k as int),
        decreases n - k,
    {
        assert(2 * k < len);
        r.push(bytes[2 * k]);
        k += 1;
        assert(r@ =~= every_other(bytes@).take(k as int));
    }
    assert(every_other(bytes@).take(n as int) =~= every_other(bytes@));
    r
}

// ─── WAV files ───────────────────────────────────────────────────────

/// Little-endian 16-bit value at `i`.
pub open spec fn le16(d: Seq<u8>, i: int) -> nat {
    (d[i] + d[i + 1] * 256) as nat
}

/// Little-endian 32-bit value at `i`.
pub open spec fn le32(d: Seq<u8>, i: int) -> nat {
    (d[i] + d[i + 1] * 256 + d[i + 2] * 0x1_0000 + d[i + 3] * 0x100_0000) as nat
}

pub open spec fn tag_fmt() -> Seq<u8> {
    seq![0x66u8, 0x6d, 0x74, 0x20]
}

pub open spec fn tag_data() -> Seq<u8> {
    seq![0x64u8, 0x61, 0x74, 0x61]
}

pub open spec fn tag_riff() -> Seq<u8> {
    seq![0x52u8, 0x49, 0x46, 0x46]
}

pub open spec fn tag_wave() -> Seq<u8> {
    seq![0x57u8, 0x41, 0x56, 0x45]
}

/// Walking the RIFF chunks from offset `i` (8-byte header: id, size; the
/// body padded to an even length), the offset of the first chunk with id
/// `tag` and size at least `min`; `None` once a header no longer fits.
pub open spec fn find_chunk(d: Seq<u8>, i: int, tag: Seq<u8>, min: nat) -> Option<int>
    decreases d.len() - i,
{
    if i < 0 || i + 8 > d.len() {
        None
    } else if d.subrange(i, i + 4) == tag && le32(d, i + 4) >= min {
        Some(i)
    } else {
        let sz = le32(d, i + 4);
        let next = i + 8 + sz + (if sz % 2 != 0 {
            1int
        } else {
            0int
        });
        if next + 8 > d.len() {
            None
        } else {
            find_chunk(d, next, tag, min)
        }
    }
}

fn read_le16(d: &[u8], i: usize) -> (r: u16)
    requires
        i + 2 <= d@.len(),
    ensures
        r == le16(d@, i as int),
{
    (d[i] as u16) + (d[i + 1] as u16) * 256
}

fn read_le32(d: &[u8], i: usize) -> (r: u32)
    requires
        i + 4 <= d@.len(),
    ensures
        r == le32(d@, i as int),
{
    (d[i] as u32) + (d[i + 1] as u32) * 256 + (d[i + 2] as u32) * 0x1_0000 + (d[i + 3] as u32)
        * 0x100_0000
}

fn has_tag(d: &[u8], i: usize, t: [u8; 4]) -> (b: bool)
    requires
        i + 4 <= d@.len(),
    ensures
        b == (d@.subrange(i as int, i + 4) == t@),
{
    let b = d[i] == t[0] && d[i + 1] == t[1] && d[i + 2] == t[2] && d[i + 3] == t[3];
    proof {
        if b {
            assert(d@.subrange(i as int, i + 4) =~= t@);
        } else if d@.subrange(i as int, i + 4) == t@ {
            assert(d@.subrange(i as int, i + 4)[0] == t@[0]);
            assert(d@.subrange(i as int, i + 4)[1] == t@[1]);
            assert(d@.subrange(i as int, i + 4)[2] == t@[2]);
            assert(d@.subrange(i as int, i + 4)[3] == t@[3]);
        }
    }
    b
}

/// Offset of the first chunk with id `t` and size at least `min`, walking
/// from offset 12 (after `RIFF`, the size and `WAVE`).
fn walk_chunks(d: &[u8], t: [u8; 4], min: u32) -> (r: Option<usize>)
    ensures
        r matches Some(i) ==> find_chunk(d@, 12, t@, min as nat) == Some(i as int) && i + 8
            <= d@.len(),
        r is None ==> find_chunk(d@, 12, t@, min as nat) is None,
{
    let len = d.len();
    let mut i: usize = 12;
    loop
        invariant
            len == d@.len(),
            find_chunk(d@, 12, t@, min as nat) == find_chunk(d@, i as int, t@, min as nat),
        decreases len - i,
    {
        if i > len || len - i < 8 {
            return None;
        }
        let size = read_le32(d, i + 4);
        if has_tag(d, i, t) && size >= min {
            return Some(i);
        }
        let rest: usize = len - i - 8;
        let pad: usize = if size % 2 != 0 {
            1
        } else {
            0
        };
        let sz: usize = size as usize;
        if sz > rest || rest - sz < pad + 8 {
            return None;
        }
        i = i + 8 + sz + pad;
    }
}

/// The fields of a `fmt ` chunk at `p`: (format tag, channels, sample rate,
/// bits per sample).
pub open spec fn fmt_at(d: Seq<u8>, p: int) -> (u16, u16, u32, u16) {
    (le16(d, p) as u16, le16(d, p + 2) as u16, le32(d, p + 4) as u32, le16(d, p + 14) as u16)
}

/// A `fmt ` chunk found by the walk has its 16 bytes of fields in the data.
pub open spec fn fmt_readable(d: Seq<u8>) -> bool {
    find_chunk(d, 12, tag_fmt(), 16) matches Some(p) ==> p + 24 <= d.len()
}

/// The format of a WAV file: from its first `fmt ` chunk of at least 16
/// bytes, else from the fixed offsets of the canonical 44-byte header.
pub open spec fn wav_format(d: Seq<u8>) -> Option<(u16, u16, u32, u16)> {
    match find_chunk(d, 12, tag_fmt(), 16) {
        Some(p) => Some(fmt_at(d, p + 8)),
        None => if d.len() >= 36 {
            Some(fmt_at(d, 20))
        } else {
            None
        },
    }
}

/// A WAV file passes the header checks: at least 44 bytes, `RIFF` at the
/// start and `WAVE` at byte 8.
pub open spec fn wav_header_ok(d: Seq<u8>) -> bool {
    d.len() >= 44 && d.subrange(0, 4) == tag_riff() && d.subrange(8, 12) == tag_wave()
}

/// Whether the `fmt ` chunk of `data`, if the walk finds one, can be read.
pub fn wav_fmt_readable(data: &[u8]) -> (b: bool)
    ensures
        b == fmt_readable(data@),
{
    match walk_chunks(data, [0x66u8, 0x6d, 0x74, 0x20], 16) {
        Some(p) => {
            assert([0x66u8, 0x6d, 0x74, 0x20]@ =~= tag_fmt());
            p <= data.len() && data.len() - p >= 24
        },
        None => {
            assert([0x66u8, 0x6d, 0x74, 0x20]@ =~= tag_fmt());
            true
        },
    }
}

impl AudioSource {
    /// (format tag, channels, sample rate, bits per sample) of a WAV file.
    pub fn parse_fmt_chunk(data: &[u8]) -> (r: Result<(u16, u16, u32, u16), AudioError>)
        requires
            fmt_readable(data@),
        ensures
            r matches Ok(f) ==> wav_format(data@) == Some(f),
            r is Err ==> wav_format(data@) is None && r == Err::<(u16, u16, u32, u16), AudioError>(
                AudioError::NoFmtChunk,
            ),
    {
        let t = [0x66u8, 0x6d, 0x74, 0x20];
        assert(t@ =~= tag_fmt());
        let len: usize = data.len();
        match walk_chunks(data, t, 16) {
            Some(p) => {
                let q = p + 8;
                Ok((read_le16(data, q), read_le16(data, q + 2), read_le32(data, q + 4), read_le16(data, q + 14)))
            },
            None => {
                if data.len() >= 36 {
                    Ok((read_le16(data, 20), read_le16(data, 22), read_le32(data, 24), read_le16(data, 34)))
                } else {
                    Err(AudioError::NoFmtChunk)
                }
            },
        }
    }

    /// The bytes of the first `data` chunk, cut at the end of the file.
    pub fn find_wav_data_raw(data: &[u8]) -> (r: Result<Vec<u8>, AudioError>)
        ensures
            r matches Ok(b) ==> wav_data(data@) == Some(b@),
            r is Err ==> wav_data(data@) is None && r == Err::<Vec<u8>, AudioError>(
                AudioError::NoDataChunk,
            ),
    {
        let t = [0x64u8, 0x61, 0x74, 0x61];
        assert(t@ =~= tag_data());
        let len: usize = data.len();
        match walk_chunks(data, t, 0) {
            None => Err(AudioError::NoDataChunk),
            Some(p) => {
                let size = read_le32(data, p + 4);
                let start = p + 8;
                let end: usize = if (size as u64) >= (data.len() - start) as u64 {
                    data.len()
                } else {
                    start + size as usize
                };
                let mut out: Vec<u8> = Vec::new();
                let mut i = start;
                while i < end
                    invariant
                        start <= i <= end <= data@.len(),
                        out@ == data@.subrange(start as int, i as int),
                    decreases end - i,
                {
                    out.push(data[i]);
                    i += 1;
                    assert(out@ =~= data@.subrange(start as int, i as int));
                }
                Ok(out)
            },
        }
    }

    /// The samples of the first `data` chunk, as little-endian 16-bit PCM.
    pub fn find_wav_data_i16(data: &[u8]) -> (r: Result<Vec<i16>, AudioError>)
        ensures
            r matches Ok(s) ==> (wav_data(data@) matches Some(b) && s@ == pcm16_of(b)),
            r is Err ==> wav_data(data@) is None && r == Err::<Vec<i16>, AudioError>(
                AudioError::NoDataChunk,
            ),
    {
        let raw = Self::find_wav_data_raw(data)?;
        let rl: usize = raw.len();
        let n = rl / 2;
        let mut out: Vec<i16> = Vec::new();
        let mut k: usize = 0;
        while k < n
            invariant
                n == raw@.len() / 2,
                rl == raw@.len(),
                k <= n,
                out@ == pcm16_of(raw@).take(k as int),
            decreases n - k,
        {
            assert(2 * k + 1 < raw@.len()) by (nonlinear_arith)
                requires
                    k < n,
                    n == raw@.len() / 2,
            ;
            let u: u16 = (raw[2 * k] as u16) + (raw[2 * k + 1] as u16) * 256;
            out.push(#[verifier::truncate] (u as i16));
            k += 1;
            assert(out@ =~= pcm16_of(raw@).take(k as int));
        }
        assert(pcm16_of(raw@).take(n as int) =~= pcm16_of(raw@));
        Ok(out)
    }
}

/// The bytes of the first `data` chunk, cut at the end of the file.
pub open spec fn wav_data(d: Seq<u8>) -> Option<Seq<u8>> {
    match find_chunk(d, 12, tag_data(), 0) {
        None => None,
        Some(p) => {
            let start = p + 8;
            let end = if start + le32(d, p + 4) > d.len() {
                d.len() as int
            } else {
                start + le32(d, p + 4)
            };
            Some(d.subrange(start, end))
        },
    }
}

/// Little-endian 16-bit samples of the whole byte pairs of `b`.
pub open spec fn pcm16_of(b: Seq<u8>) -> Seq<i16> {
    Seq::new(b.len() / 2, |i: int| ((b[2 * i] + b[2 * i + 1] * 256) as u16) as i16)
}


// ─── WAV decoding ────────────────────────────────────────────────────

/// What a WAV file decodes to, as values.
pub enum WavSamples {
    /// A-law bytes at 8 kHz, ready to be framed.
    Alaw(Seq<u8>),
    /// Mono linear samples at the given rate, to be brought to 8 kHz and
    /// A-law encoded.
    Linear(Seq<i16>, u32),
}

/// What a WAV file decodes to: A-law at 8 kHz, or mono linear PCM at
/// another sample rate (which still has to be resampled).
pub enum WavDecoded {
    Alaw(Vec<u8>),
    Linear(Vec<i16>, u32),
}

impl View for WavDecoded {
    type V = WavSamples;

    open spec fn view(&self) -> WavSamples {
        match self {
            WavDecoded::Alaw(b) => WavSamples::Alaw(b@),
            WavDecoded::Linear(s, rate) => WavSamples::Linear(s@, *rate),
        }
    }
}

/// Samples at `rate`: A-law as they stand at 8 kHz, else linear.
pub open spec fn at_rate(lin: Seq<i16>, rate: u32) -> WavSamples {
    if rate == 8000 {
        WavSamples::Alaw(alaw_encode_seq(lin))
    } else {
        WavSamples::Linear(lin, rate)
    }
}

/// The decoding of a WAV file: the header checks (size, `RIFF`, `WAVE`),
/// then by format tag: 16-bit PCM (stereo mixed down), 8-bit A-law (the
/// left channel of stereo, kept as it is at 8 kHz), 8-bit μ-law (the left
/// channel, decoded).
pub open spec fn wav_decode(d: Seq<u8>) -> Result<WavSamples, AudioError> {
    if d.len() < 44 {
        Err(AudioError::WavTooSmall)
    } else if d.subrange(0, 4) != tag_riff() {
        Err(AudioError::NotRiff)
    } else if d.subrange(8, 12) != tag_wave() {
        Err(AudioError::NotWave)
    } else {
        match wav_format(d) {
            None => Err(AudioError::NoFmtChunk),
            Some((format, channels, rate, bits)) => if format == 1 {
                if bits != 16 {
                    Err(AudioError::PcmBits(bits))
                } else {
                    match wav_data(d) {
                        None => Err(AudioError::NoDataChunk),
                        Some(b) => {
                            let pcm = pcm16_of(b);
                            let mono = if channels == 2 {
                                mono_of(pcm)
                            } else {
                                pcm
                            };
                            Ok(at_rate(mono, rate))
                        },
                    }
                }
            } else if format == 6 {
                if bits != 8 {
                    Err(AudioError::AlawBits(bits))
                } else {
                    match wav_data(d) {
                        None => Err(AudioError::NoDataChunk),
                        Some(b) => {
                            let raw = if channels == 2 {
                                every_other(b)
                            } else {
                                b
                            };
                            if rate == 8000 {
                                Ok(WavSamples::Alaw(raw))
                            } else {
                                Ok(WavSamples::Linear(alaw_decode_seq(raw), rate))
                            }
                        },
                    }
                }
            } else if format == 7 {
                if bits != 8 {
                    Err(AudioError::UlawBits(bits))
                } else {
                    match wav_data(d) {
                        None => Err(AudioError::NoDataChunk),
                        Some(b) => {
                            let raw = if channels == 2 {
                                every_other(b)
                            } else {
                                b
                            };
                            Ok(at_rate(ulaw_decode_seq(raw), rate))
                        },
                    }
                }
            } else {
                Err(AudioError::UnsupportedFormat(format))
            },
        }
    }
}

/// Linear samples at `rate`, as A-law when already at 8 kHz.
fn samples_at_rate(lin: Vec<i16>, rate: u32) -> (r: WavDecoded)
    ensures
        r@ == at_rate(lin@, rate),
{
    if rate == 8000 {
        WavDecoded::Alaw(linear_to_alaw_all(&lin))
    } else {
        WavDecoded::Linear(lin, rate)
    }
}

impl AudioSource {
    /// Decodes the bytes of a WAV file (PCM16, A-law or μ-law).
    pub fn decode_wav(data: &[u8]) -> (r: Result<WavDecoded, AudioError>)
        requires
            wav_header_ok(data@) ==> fmt_readable(data@),
        ensures
            match r {
                Ok(w) => wav_decode(data@) == Ok::<WavSamples, AudioError>(w@),
                Err(e) => wav_decode(data@) == Err::<WavSamples, AudioError>(e),
            },
    {
        if data.len() < 44 {
            return Err(AudioError::WavTooSmall);
        }
        let riff = [0x52u8, 0x49, 0x46, 0x46];
        let wave = [0x57u8, 0x41, 0x56, 0x45];
        assert(riff@ =~= tag_riff());
        assert(wave@ =~= tag_wave());
        if !has_tag(data, 0, riff) {
            return Err(AudioError::NotRiff);
        }
        if !has_tag(data, 8, wave) {
            return Err(AudioError::NotWave);
        }
        let (format, channels, rate, bits) = Self::parse_fmt_chunk(data)?;
        if format == 1 {
            if bits != 16 {
                return Err(AudioError::PcmBits(bits));
            }
            let pcm = Self::find_wav_data_i16(data)?;
            let mono = if channels == 2 {
                stereo_to_mono(&pcm)
            } else {
                pcm
            };
            Ok(samples_at_rate(mono, rate))
        } else if format == 6 {
            if bits != 8 {
                return Err(AudioError::AlawBits(bits));
            }
            let b = Self::find_wav_data_raw(data)?;
            let raw = if channels == 2 {
                left_channel(&b)
            } else {
                b
            };
            if rate == 8000 {
                Ok(WavDecoded::Alaw(raw))
            } else {
                Ok(WavDecoded::Linear(alaw_to_linear_all(&raw), rate))
            }
        } else if format == 7 {
            if bits != 8 {
                return Err(AudioError::UlawBits(bits));
            }
            let b = Self::find_wav_data_raw(data)?;
            let raw = if channels == 2 {
                left_channel(&b)
            } else {
                b
            };
            Ok(samples_at_rate(ulaw_to_linear_all(&raw), rate))
        } else {
            Err(AudioError::UnsupportedFormat(format))
        }
    }
}

} // verus!
