//! RTP packets (RFC 3550): the 12-byte fixed header and the payload.
use vstd::prelude::*;

verus! {

/// Size of the fixed RTP header in bytes.
pub const RTP_HEADER_SIZE: usize = 12;

/// Payload type of G.711 μ-law (PCMU).
pub const PT_PCMU: u8 = 0;

/// Payload type of G.711 A-law (PCMA).
pub const PT_PCMA: u8 = 8;

#[derive(Debug, Clone)]
pub struct RtpPacket {
    /// Payload type (7 bits on the wire).
    pub payload_type: u8,
    /// Sequence number, one more for each packet.
    pub sequence: u16,
    /// Sampling instant of the first payload byte (8000 Hz for G.711).
    pub timestamp: u32,
    /// Synchronisation source identifier.
    pub ssrc: u32,
    /// The media payload.
    pub payload: Vec<u8>,
    /// Arrival time in microseconds, when known (not part of the packet).
    pub received_at_us: Option<u64>,
}

/// The fields of a packet, as plain values.
pub struct PacketView {
    pub payload_type: u8,
    pub sequence: u16,
    pub timestamp: u32,
    pub ssrc: u32,
    pub payload: Seq<u8>,
    pub received_at_us: Option<u64>,
}

impl View for RtpPacket {
    type V = PacketView;

    open spec fn view(&self) -> PacketView {
        PacketView {
            payload_type: self.payload_type,
            sequence: self.sequence,
            timestamp: self.timestamp,
            ssrc: self.ssrc,
            payload: self.payload@,
            received_at_us: self.received_at_us,
        }
    }
}

/// Big-endian bytes of a 16-bit value.
pub open spec fn be16(x: u16) -> Seq<u8> {
    seq![(x / 256) as u8, (x % 256) as u8]
}

/// Big-endian bytes of a 32-bit value.
pub open spec fn be32(x: u32) -> Seq<u8> {
    seq![
        (x / 0x100_0000) as u8,
        ((x / 0x1_0000) % 256) as u8,
        ((x / 256) % 256) as u8,
        (x % 256) as u8,
    ]
}

/// The wire form of a packet: version 2, no padding, extension, CSRC or
/// marker, the payload type in 7 bits, then sequence, timestamp and SSRC in
/// network byte order, then the payload.
pub open spec fn encoding(p: PacketView) -> Seq<u8> {
    seq![0x80u8, (p.payload_type % 128) as u8] + be16(p.sequence) + be32(p.timestamp) + be32(
        p.ssrc,
    ) + p.payload
}

/// The packet a byte string holds: at least 12 bytes whose first byte
/// carries version 2 (its two high bits).
pub open spec fn decoding(d: Seq<u8>) -> Option<PacketView> {
    if d.len() < 12 || d[0] / 64 != 2 {
        None
    } else {
        Some(
            PacketView {
                payload_type: (d[1] % 128) as u8,
                sequence: (d[2] * 256 + d[3]) as u16,
                timestamp: (d[4] * 0x100_0000 + d[5] * 0x1_0000 + d[6] * 256 + d[7]) as u32,
                ssrc: (d[8] * 0x100_0000 + d[9] * 0x1_0000 + d[10] * 256 + d[11]) as u32,
                payload: d.skip(12),
                received_at_us: None,
            },
        )
    }
}

fn push_be16(buf: &mut Vec<u8>, x: u16)
    ensures
        final(buf)@ == old(buf)@ + be16(x),
{
    buf.push((x / 256) as u8);
    buf.push((x % 256) as u8);
    assert(buf@ =~= old(buf)@ + be16(x));
}

fn push_be32(buf: &mut Vec<u8>, x: u32)
    ensures
        final(buf)@ == old(buf)@ + be32(x),
{
    buf.push((x / 0x100_0000) as u8);
    buf.push(((x / 0x1_0000) % 256) as u8);
    buf.push(((x / 256) % 256) as u8);
    buf.push((x % 256) as u8);
    assert(buf@ =~= old(buf)@ + be32(x));
}

impl RtpPacket {
    /// A packet to send; its arrival time is unknown.
    pub fn new(payload_type: u8, sequence: u16, timestamp: u32, ssrc: u32, payload: Vec<u8>) -> (p: Self)
        ensures
            p@ == (PacketView {
                payload_type,
                sequence,
                timestamp,
                ssrc,
                payload: payload@,
                received_at_us: None,
            }),
    {
        RtpPacket { payload_type, sequence, timestamp, ssrc, payload, received_at_us: None }
    }

    /// The packet on the wire: fixed header then payload.
    pub fn encode(&self) -> (buf: Vec<u8>)
        ensures
            buf@ == encoding(self@),
    {
        let mut buf: Vec<u8> = Vec::new();
        buf.push(0x80u8);
        buf.push(self.payload_type % 128);
        push_be16(&mut buf, self.sequence);
        push_be32(&mut buf, self.timestamp);
        push_be32(&mut buf, self.ssrc);
        let mut i: usize = 0;
        let ghost head = buf@;
        while i < self.payload.len()
            invariant
                i <= self.payload@.len(),
                buf@ == head + self.payload@.take(i as int),
            decreases self.payload@.len() - i,
        {
            buf.push(self.payload[i]);
            i += 1;
            assert(buf@ =~= head + self.payload@.take(i as int));
        }
        assert(self.payload@.take(self.payload@.len() as int) =~= self.payload@);
        assert(buf@ =~= encoding(self@));
        buf
    }

    /// Reads a received packet; `None` when shorter than the fixed header
    /// or not RTP version 2.
    pub fn decode(data: &[u8]) -> (r: Option<Self>)
        ensures
            r matches Some(p) ==> decoding(data@) == Some(p@),
            r is None ==> decoding(data@) is None,
    {
        if data.len() < RTP_HEADER_SIZE {
            return None;
        }
        if data[0] / 64 != 2 {
            return None;
        }
        let payload_type = data[1] % 128;
        let sequence = (data[2] as u16) * 256 + (data[3] as u16);
        let timestamp = (data[4] as u32) * 0x100_0000 + (data[5] as u32) * 0x1_0000 + (data[6] as u32)
            * 256 + (data[7] as u32);
        let ssrc = (data[8] as u32) * 0x100_0000 + (data[9] as u32) * 0x1_0000 + (data[10] as u32)
            * 256 + (data[11] as u32);
        let mut payload: Vec<u8> = Vec::new();
        let mut i: usize = RTP_HEADER_SIZE;
        while i < data.len()
            invariant
                12 <= i <= data@.len(),
                payload@ == data@.subrange(12, i as int),
            decreases data@.len() - i,
        {
            payload.push(data[i]);
            i += 1;
            assert(payload@ =~= data@.subrange(12, i as int));
        }
        assert(payload@ =~= data@.skip(12));
        Some(RtpPacket { payload_type, sequence, timestamp, ssrc, payload, received_at_us: None })
    }
}

/// Reading what was encoded gives the packet back, its payload type cut to
/// 7 bits and its arrival time unknown.
pub proof fn lemma_decode_encode(p: PacketView)
    ensures
        decoding(encoding(p)) == Some(
            PacketView { payload_type: (p.payload_type % 128) as u8, received_at_us: None, ..p },
        ),
{
    let e = encoding(p);
    assert(e.skip(12) =~= p.payload);
    assert(e[0] == 0x80u8);
    assert(e[2] * 256 + e[3] == p.sequence as int);
    assert(e[4] * 0x100_0000 + e[5] * 0x1_0000 + e[6] * 256 + e[7] == p.timestamp as int);
    assert(e[8] * 0x100_0000 + e[9] * 0x1_0000 + e[10] * 256 + e[11] == p.ssrc as int);
}

proof fn lemma_bytes16(a: int, b: int)
    requires
        0 <= a < 256,
        0 <= b < 256,
    ensures
        (a * 256 + b) / 256 == a,
        (a * 256 + b) % 256 == b,
{
    assert((a * 256 + b) / 256 == a && (a * 256 + b) % 256 == b) by (nonlinear_arith)
        requires
            0 <= a < 256,
            0 <= b < 256,
    ;
}

proof fn lemma_bytes32(a: int, b: int, c: int, d: int)
    requires
        0 <= a < 256,
        0 <= b < 256,
        0 <= c < 256,
        0 <= d < 256,
    ensures
        ({
            let x = a * 0x100_0000 + b * 0x1_0000 + c * 256 + d;
            &&& x / 0x100_0000 == a
            &&& (x / 0x1_0000) % 256 == b
            &&& (x / 256) % 256 == c
            &&& x % 256 == d
        }),
{
    let x = a * 0x100_0000 + b * 0x1_0000 + c * 256 + d;
    let y = (a * 256 + b) * 256 + c;
    assert(x == y * 256 + d);
    assert(x / 256 == y && x % 256 == d) by (nonlinear_arith)
        requires
            x == y * 256 + d,
            0 <= d < 256,
            y >= 0,
    ;
    assert(y / 256 == a * 256 + b && y % 256 == c) by (nonlinear_arith)
        requires
            y == (a * 256 + b) * 256 + c,
            0 <= c < 256,
            a >= 0,
            b >= 0,
    ;
    assert(x / 0x1_0000 == y / 256) by (nonlinear_arith)
        requires
            x == y * 256 + d,
            0 <= d < 256,
            y >= 0,
    ;
    lemma_bytes16(a, b);
    assert(x / 0x100_0000 == (a * 256 + b) / 256) by (nonlinear_arith)
        requires
            x == ((a * 256 + b) * 256 + c) * 256 + d,
            0 <= c < 256,
            0 <= d < 256,
            a >= 0,
            b >= 0,
    ;
}

/// Encoding what was read gives the bytes back when the first byte is
/// exactly `0x80` and the second carries no marker bit.
pub proof fn lemma_encode_decode(d: Seq<u8>)
    requires
        d.len() >= 12,
        d[0] == 0x80,
        d[1] < 128,
    ensures
        decoding(d) matches Some(p) && encoding(p) == d,
{
    let p = decoding(d)->0;
    lemma_bytes16(d[2] as int, d[3] as int);
    lemma_bytes32(d[4] as int, d[5] as int, d[6] as int, d[7] as int);
    lemma_bytes32(d[8] as int, d[9] as int, d[10] as int, d[11] as int);
    let e = encoding(p);
    assert(e.len() == d.len());
    assert forall|i: int| 0 <= i < d.len() implies e[i] == d[i] by {
        if i >= 12 {
            assert(e[i] == p.payload[i - 12]);
        }
    }
    assert(e =~= d);
}

} // verus!
