use sipress_core::rtp::audio::{
    alaw_to_linear, linear_to_alaw, linear_to_ulaw, ulaw_to_linear, ulaw_bytes_to_alaw, stereo_to_mono,
    left_channel, wav_fmt_readable, AudioError, AudioSource, WavDecoded,
};
use sipress_core::rtp::packet::{RtpPacket, PT_PCMA};
use sipress_core::rtp::session::{port_candidates, RtpSender};
use sipress_core::rtp::stats::RtpStats;

#[test]
fn g711_known_values() {
    assert_eq!(linear_to_alaw(0), 0xD5);
    assert_eq!(linear_to_alaw(32767), 0xAA);
    assert_eq!(linear_to_alaw(-32768), 0x2A);
    assert_eq!(linear_to_alaw(1000), 0xFA);
    assert_eq!(alaw_to_linear(0xD5), 8);
    assert_eq!(alaw_to_linear(0x55), -8);
    assert_eq!(alaw_to_linear(0xAA), 32256);
    assert_eq!(alaw_to_linear(0x2A), -32256);
    assert_eq!(linear_to_ulaw(0), 0xFF);
    assert_eq!(linear_to_ulaw(32767), 0x80);
    assert_eq!(ulaw_to_linear(0xFF), 0);
    assert_eq!(ulaw_to_linear(0x80), 32124);
    assert_eq!(ulaw_to_linear(0x00), -32124);
}

#[test]
fn g711_code_words_survive_decode_and_encode() {
    for b in 0u16..256 {
        let b = b as u8;
        assert_eq!(linear_to_alaw(alaw_to_linear(b)), b);
        if b != 0x7F {
            assert_eq!(linear_to_ulaw(ulaw_to_linear(b)), b);
        }
    }
    assert_eq!(linear_to_ulaw(ulaw_to_linear(0x7F)), 0xFF);
}

#[test]
fn ulaw_to_alaw_goes_through_linear() {
    assert_eq!(ulaw_bytes_to_alaw(&vec![0xFF]), vec![0xD5]);
    let raw: Vec<u8> = (0u16..256).map(|b| b as u8).collect();
    let expect: Vec<u8> = raw.iter().map(|&b| linear_to_alaw(ulaw_to_linear(b))).collect();
    assert_eq!(ulaw_bytes_to_alaw(&raw), expect);
}

#[test]
fn stereo_mix_rounds_toward_zero() {
    assert_eq!(stereo_to_mono(&vec![1, 2, -1, -2, 7]), vec![1, -1]);
    assert_eq!(left_channel(&vec![1, 2, 3, 4, 5]), vec![1, 3, 5]);
}

#[test]
fn silence_source_loops() {
    let mut s = AudioSource::silence();
    assert_eq!(s.frame_count(), 50);
    for _ in 0..50 {
        let f = s.next_frame().unwrap();
        assert_eq!(f, vec![0xD5u8; 160]);
    }
    // looping: the 51st frame is the first again
    assert_eq!(s.next_frame().unwrap(), vec![0xD5u8; 160]);
}

#[test]
fn non_looping_source_ends() {
    let mut data = vec![1u8; 160];
    data.extend(vec![2u8; 160]);
    data.extend(vec![3u8; 10]);
    let mut s = AudioSource::from_pcma(&data).unwrap();
    assert_eq!(s.frame_count(), 2);
    s.looping = false;
    assert_eq!(s.next_frame().unwrap(), vec![1u8; 160]);
    assert_eq!(s.next_frame().unwrap(), vec![2u8; 160]);
    assert_eq!(s.next_frame(), None);
    s.reset();
    assert_eq!(s.next_frame().unwrap(), vec![1u8; 160]);
}

#[test]
fn too_short_audio_is_refused() {
    assert!(matches!(AudioSource::from_pcma(&vec![0u8; 159]), Err(AudioError::TooShort)));
}

fn wav(format: u16, channels: u16, rate: u32, bits: u16, data: &[u8]) -> Vec<u8> {
    let mut w = Vec::new();
    w.extend_from_slice(b"RIFF");
    w.extend_from_slice(&((36 + data.len()) as u32).to_le_bytes());
    w.extend_from_slice(b"WAVE");
    w.extend_from_slice(b"fmt ");
    w.extend_from_slice(&16u32.to_le_bytes());
    w.extend_from_slice(&format.to_le_bytes());
    w.extend_from_slice(&channels.to_le_bytes());
    w.extend_from_slice(&rate.to_le_bytes());
    w.extend_from_slice(&(rate * 2).to_le_bytes());
    w.extend_from_slice(&2u16.to_le_bytes());
    w.extend_from_slice(&bits.to_le_bytes());
    w.extend_from_slice(b"data");
    w.extend_from_slice(&(data.len() as u32).to_le_bytes());
    w.extend_from_slice(data);
    w
}

#[test]
fn wav_pcm16_at_8k_becomes_alaw() {
    let samples: Vec<u8> = [0i16, 1000, -1000]
        .iter()
        .flat_map(|s| s.to_le_bytes())
        .collect();
    let w = wav(1, 1, 8000, 16, &samples);
    assert!(wav_fmt_readable(&w));
    match AudioSource::decode_wav(&w).unwrap() {
        WavDecoded::Alaw(b) => {
            assert_eq!(b, vec![linear_to_alaw(0), linear_to_alaw(1000), linear_to_alaw(-1000)])
        }
        _ => panic!("expected A-law"),
    }
}

#[test]
fn wav_pcm16_stereo_at_16k_is_mixed_and_left_for_resampling() {
    let samples: Vec<u8> = [10i16, 20, -3, -4]
        .iter()
        .flat_map(|s| s.to_le_bytes())
        .collect();
    let w = wav(1, 2, 16000, 16, &samples);
    match AudioSource::decode_wav(&w).unwrap() {
        WavDecoded::Linear(s, rate) => {
            assert_eq!(s, vec![15, -3]);
            assert_eq!(rate, 16000);
        }
        _ => panic!("expected linear samples"),
    }
}

#[test]
fn wav_alaw_and_ulaw() {
    let w = wav(6, 1, 8000, 8, &[0xD5, 0x55]);
    assert!(matches!(AudioSource::decode_wav(&w).unwrap(), WavDecoded::Alaw(b) if b == vec![0xD5, 0x55]));
    let w = wav(7, 2, 8000, 8, &[0xFF, 0x00, 0x7F, 0x00]);
    let expect = vec![linear_to_alaw(ulaw_to_linear(0xFF)), linear_to_alaw(ulaw_to_linear(0x7F))];
    assert!(matches!(AudioSource::decode_wav(&w).unwrap(), WavDecoded::Alaw(b) if b == expect));
}

#[test]
fn wav_errors() {
    assert!(matches!(AudioSource::decode_wav(&[0u8; 10]), Err(AudioError::WavTooSmall)));
    // a short file whose fmt chunk runs past its end is refused as too small
    let mut short = b"RIFF\x10\0\0\0WAVEfmt \x10\0\0\0".to_vec();
    short.extend_from_slice(&[1, 0]);
    assert!(!wav_fmt_readable(&short));
    assert!(matches!(AudioSource::decode_wav(&short), Err(AudioError::WavTooSmall)));
    let mut w = wav(1, 1, 8000, 16, &[0, 0, 0, 0]);
    w[0] = b'X';
    assert!(matches!(AudioSource::decode_wav(&w), Err(AudioError::NotRiff)));
    let mut w = wav(1, 1, 8000, 16, &[0, 0, 0, 0]);
    w[8] = b'X';
    assert!(matches!(AudioSource::decode_wav(&w), Err(AudioError::NotWave)));
    let w = wav(1, 1, 8000, 8, &[0, 0, 0, 0]);
    assert!(matches!(AudioSource::decode_wav(&w), Err(AudioError::PcmBits(8))));
    let w = wav(6, 1, 8000, 16, &[0, 0, 0, 0]);
    assert!(matches!(AudioSource::decode_wav(&w), Err(AudioError::AlawBits(16))));
    let w = wav(7, 1, 8000, 16, &[0, 0, 0, 0]);
    assert!(matches!(AudioSource::decode_wav(&w), Err(AudioError::UlawBits(16))));
    let w = wav(3, 1, 8000, 32, &[0, 0, 0, 0]);
    assert!(matches!(AudioSource::decode_wav(&w), Err(AudioError::UnsupportedFormat(3))));
    // no data chunk: rename it
    let mut w = wav(1, 1, 8000, 16, &[0, 0, 0, 0]);
    w[36] = b'x';
    assert!(matches!(AudioSource::decode_wav(&w), Err(AudioError::NoDataChunk)));
    // fmt fields fall back to the fixed offsets when the chunk is renamed
    let mut w = wav(9, 1, 8000, 16, &[0, 0, 0, 0]);
    w[12] = b'x';
    assert!(matches!(AudioSource::decode_wav(&w), Err(AudioError::UnsupportedFormat(9))));
}

#[test]
fn decode_rejects_short_and_wrong_version() {
    assert!(RtpPacket::decode(&[0x80; 11]).is_none());
    assert!(RtpPacket::decode(&[0x40; 12]).is_none());
    let p = RtpPacket::decode(&[0x80, 0x88, 0, 1, 0, 0, 0, 2, 0, 0, 0, 3, 9]).unwrap();
    assert_eq!((p.payload_type, p.sequence, p.timestamp, p.ssrc), (8, 1, 2, 3));
    assert_eq!(p.payload, vec![9]);
}

#[test]
fn encode_header_bytes() {
    let p = RtpPacket::new(PT_PCMA, 0x0102, 0x03040506, 0x0708090A, vec![0xAA]);
    assert_eq!(p.encode(), vec![0x80, 8, 1, 2, 3, 4, 5, 6, 7, 8, 9, 10, 0xAA]);
}

#[test]
fn sender_numbers_packets() {
    let mut s = RtpSender::new(AudioSource::silence(), 65535, 0xFFFF_FFF0, 7);
    let (p1, n1) = s.next_packet().unwrap();
    assert_eq!(n1, 160);
    let d1 = RtpPacket::decode(&p1).unwrap();
    assert_eq!((d1.sequence, d1.timestamp, d1.ssrc, d1.payload_type), (65535, 0xFFFF_FFF0, 7, 8));
    let (p2, _) = s.next_packet().unwrap();
    let d2 = RtpPacket::decode(&p2).unwrap();
    assert_eq!((d2.sequence, d2.timestamp), (0, 0x90));
}

#[test]
fn port_candidates_wrap_and_skip_low_ports() {
    let c = port_candidates(16000);
    assert_eq!(c.len(), 2000);
    assert_eq!(c[0], 16000);
    assert_eq!(c[1999], 19998);
    let c = port_candidates(65534);
    assert_eq!(c[0], 65534);
    assert_eq!(c[1], 1024);
    assert_eq!(c.len(), 2000 - 512);
}

#[test]
fn rtp_stats_counts_duplicates_and_reordering() {
    let mut st = RtpStats::new();
    st.on_send(160);
    st.on_send(160);
    assert_eq!((st.sent_packets(), st.sent_bytes()), (2, 320));
    st.on_recv(10, 0, 0, 0);
    st.on_recv(10, 0, 0, 0);
    st.on_recv(9, 0, 0, 0);
    assert_eq!(st.recv_packets(), 3);
    assert_eq!(st.duplicates(), 1);
    assert_eq!(st.out_of_order(), 1);
    assert_eq!(st.expected_and_lost(), (1, 0));
}

#[test]
fn rtp_stats_jitter_step() {
    let mut st = RtpStats::new();
    st.on_recv(1, 0, 0, 0);
    // arrived 200 ticks after the previous packet, stamped 160 later: D = 40
    st.on_recv(2, 160, 25_000, 200);
    assert_eq!(st.jitter_x16(), 40);
    // D = 0: J = 40 + 0 - 40/16
    st.on_recv(3, 320, 45_000, 160);
    assert_eq!(st.jitter_x16(), 38);
    assert_eq!(st.last_recv_us(), Some(45_000));
}

#[test]
fn rtp_stats_in_order_stream_has_no_loss() {
    let mut st = RtpStats::new();
    for k in 0u32..300 {
        st.on_recv((100 + k) as u16, k * 160, k as u64 * 20_000, 160);
    }
    assert_eq!(st.expected_and_lost(), (300, 0));
}

#[test]
fn rtp_stats_wrap_counts_a_cycle() {
    let mut st = RtpStats::new();
    st.on_recv(65535, 0, 0, 0);
    st.on_recv(0, 160, 20_000, 160);
    // the highest number wrapped: one cycle, 65536 + 0 - 65535 + 1 (RFC 3550)
    assert_eq!(st.expected_and_lost(), (2, 0));
}

#[test]
fn fmt_chunk_missing_in_a_short_file() {
    assert!(matches!(AudioSource::parse_fmt_chunk(&[0u8; 20]), Err(AudioError::NoFmtChunk)));
    let w = wav(1, 2, 44100, 16, &[]);
    assert_eq!(AudioSource::parse_fmt_chunk(&w).unwrap(), (1, 2, 44100, 16));
}

#[test]
fn playback_without_loop_ends_until_reset() {
    let bytes: Vec<u8> = (0u16..320).map(|b| b as u8).collect();
    let mut s = AudioSource::from_pcma(&bytes).unwrap();
    s.looping = false;
    assert_eq!(s.next_frame().unwrap(), bytes[0..160].to_vec());
    assert_eq!(s.next_frame().unwrap(), bytes[160..320].to_vec());
    assert_eq!(s.next_frame(), None);
    assert_eq!(s.next_frame(), None);
    assert_eq!(s.frame_count(), 2);
    s.reset();
    assert_eq!(s.next_frame().unwrap().len(), 160);
}

#[test]
fn sender_of_a_source_without_loop_stops() {
    let bytes = vec![0xD5u8; 320];
    let mut src = AudioSource::from_pcma(&bytes).unwrap();
    src.looping = false;
    let mut s = RtpSender::new(src, 10, 100, 5);
    let (p1, n1) = s.next_packet().unwrap();
    let (p2, n2) = s.next_packet().unwrap();
    assert_eq!((n1, n2), (160, 160));
    let d1 = RtpPacket::decode(&p1).unwrap();
    let d2 = RtpPacket::decode(&p2).unwrap();
    assert_eq!((d1.sequence, d1.timestamp, d1.payload_type), (10, 100, 8));
    assert_eq!((d2.sequence, d2.timestamp, d2.ssrc), (11, 260, 5));
    assert!(s.next_packet().is_none());
    assert!(s.next_packet().is_none());
}
