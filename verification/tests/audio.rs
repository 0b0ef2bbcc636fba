use espeaker::audio::announcement::{announcement_chunks, AnnouncementStream};
use espeaker::audio::payload::{
    announcement_playback, b64_value, decode_announcement_payload, decode_base64, decode_hex,
    nibble_value,
};
use espeaker::audio::sine::SineGenerator;

#[test]
fn announcement_stream_skips_wav_header_and_returns_pcm_bytes() {
    let mut stream = AnnouncementStream::new();
    let mut header = [0u8; 44];
    header[..4].copy_from_slice(b"RIFF");
    stream.push_chunk(&header);
    stream.push_chunk(&[0x01, 0x02, 0x03, 0x04]);

    let mut out = [0u8; 4];
    let first = stream.take_bytes(&mut out);
    assert_eq!(first, 4);
    assert_eq!(out, [0x01, 0x02, 0x03, 0x04]);
    assert_eq!(stream.take_bytes(&mut out), 0);
}

#[test]
fn decodes_hex_payload() {
    let bytes = decode_hex("48656c6c6f").unwrap();
    assert_eq!(bytes.as_slice(), b"Hello");
}

#[test]
fn decodes_base64_payload() {
    let bytes = decode_base64("SGVsbG8=").unwrap();
    assert_eq!(bytes.as_slice(), b"Hello");
}

#[test]
fn stream_with_partial_header_yields_nothing() {
    let mut stream = AnnouncementStream::new();
    stream.push_chunk(&[0u8; 30]);
    let mut out = [0u8; 8];
    assert_eq!(stream.take_bytes(&mut out), 0);
    stream.push_chunk(&[0u8; 14]);
    assert_eq!(stream.take_bytes(&mut out), 0);
    stream.push_chunk(&[9, 8, 7]);
    assert_eq!(stream.take_bytes(&mut out), 3);
    assert_eq!(&out[..3], &[9, 8, 7]);
}

#[test]
fn stream_hands_out_at_most_the_destination_length() {
    let mut stream = AnnouncementStream::new();
    stream.push_chunk(&[0u8; 44]);
    stream.push_chunk(&[1, 2, 3, 4, 5, 6]);
    let mut out = [0u8; 4];
    assert_eq!(stream.take_bytes(&mut out), 4);
    assert_eq!(out, [1, 2, 3, 4]);
    assert_eq!(stream.take_bytes(&mut out), 2);
    assert_eq!(&out[..2], &[5, 6]);
}

#[test]
fn stream_drops_bytes_past_its_capacity() {
    let mut stream = AnnouncementStream::new();
    let big = vec![7u8; 5000];
    stream.push_chunk(&big);
    let mut out = vec![0u8; 8192];
    // 4096 bytes were queued; the first 44 are the header.
    assert_eq!(stream.take_bytes(&mut out), 4096 - 44);
    assert_eq!(stream.take_bytes(&mut out), 0);
}

#[test]
fn nibble_values_cover_both_cases() {
    assert_eq!(nibble_value(b'0'), Some(0));
    assert_eq!(nibble_value(b'9'), Some(9));
    assert_eq!(nibble_value(b'a'), Some(10));
    assert_eq!(nibble_value(b'F'), Some(15));
    assert_eq!(nibble_value(b'g'), None);
    assert_eq!(nibble_value(b' '), None);
}

#[test]
fn b64_values_cover_the_alphabet() {
    assert_eq!(b64_value(b'A'), Some(0));
    assert_eq!(b64_value(b'Z'), Some(25));
    assert_eq!(b64_value(b'a'), Some(26));
    assert_eq!(b64_value(b'z'), Some(51));
    assert_eq!(b64_value(b'0'), Some(52));
    assert_eq!(b64_value(b'9'), Some(61));
    assert_eq!(b64_value(b'+'), Some(62));
    assert_eq!(b64_value(b'/'), Some(63));
    assert_eq!(b64_value(b'='), None);
    assert_eq!(b64_value(b'-'), None);
}

#[test]
fn hex_decoding_skips_white_space_and_rejects_odd_length() {
    assert_eq!(decode_hex("48 65\n6c 6c\t6f").unwrap().as_slice(), b"Hello");
    assert!(decode_hex("486").is_none());
    assert!(decode_hex("4x").is_none());
    assert_eq!(decode_hex("").unwrap().as_slice(), b"");
}

#[test]
fn base64_decoding_handles_partial_groups() {
    assert_eq!(decode_base64("TQ==").unwrap().as_slice(), b"M");
    assert_eq!(decode_base64("TWE=").unwrap().as_slice(), b"Ma");
    assert_eq!(decode_base64("TWFu").unwrap().as_slice(), b"Man");
    assert!(decode_base64("TW!u").is_none());
}

#[test]
fn announcement_payload_prefers_hex_then_base64() {
    assert_eq!(
        decode_announcement_payload("  48656c6c6f \n").unwrap().as_slice(),
        b"Hello"
    );
    assert_eq!(
        decode_announcement_payload("SGVsbG8=").unwrap().as_slice(),
        b"Hello"
    );
    assert!(decode_announcement_payload("   ").is_none());
    assert!(decode_announcement_payload("!!").is_none());
}

#[test]
fn payloads_past_the_buffer_capacity_are_refused() {
    let full = "ab".repeat(2048);
    assert_eq!(decode_hex(&full).unwrap().len(), 2048);
    let over = "00".repeat(2049);
    assert!(decode_hex(&over).is_none());
    // As base64 the same text would decode to 3072 bytes: refused too.
    assert!(decode_base64(&over).is_none());
    assert!(decode_announcement_payload(&over).is_none());
}

#[test]
fn chunks_cover_the_bytes_in_order() {
    let bytes: Vec<u8> = (0..600u32).map(|i| (i % 251) as u8).collect();
    let chunks = announcement_chunks(&bytes);
    assert_eq!(chunks.len(), 3);
    assert_eq!(chunks[0].len(), 256);
    assert_eq!(chunks[1].len(), 256);
    assert_eq!(chunks[2].len(), 88);
    let joined: Vec<u8> = chunks.concat();
    assert_eq!(joined, bytes);
    assert!(announcement_chunks(&[]).is_empty());
    assert_eq!(announcement_chunks(&[0u8; 256]).len(), 1);
}

#[test]
fn playback_decodes_then_chunks() {
    let chunks = announcement_playback("48656c6c6f").unwrap();
    assert_eq!(chunks, vec![b"Hello".to_vec()]);
    assert!(announcement_playback("").is_none());
}

#[test]
fn sine_generator_steps_through_the_table() {
    let mut table = [0i16; 256];
    for (i, t) in table.iter_mut().enumerate() {
        *t = i as i16;
    }
    // 12000 Hz at 48000 Hz: a quarter cycle, 64 table entries, per sample.
    let mut osc = SineGenerator::with_table(table, 48_000, 12_000);
    assert_eq!(osc.sample(), 0);
    assert_eq!(osc.sample(), 64);
    assert_eq!(osc.sample(), 128);
    assert_eq!(osc.sample(), 192);
    assert_eq!(osc.sample(), 0);
}

#[test]
fn sine_fill_writes_stereo_frames() {
    let mut table = [0i16; 256];
    for (i, t) in table.iter_mut().enumerate() {
        *t = (i as i16) * 2;
    }
    let mut osc = SineGenerator::with_table(table, 48_000, 12_000);
    let mut buf = [-1i16; 7];
    osc.fill(&mut buf);
    assert_eq!(buf, [0, 0, 128, 128, 256, 256, -1]);
    assert_eq!(osc.sample(), 384);
}

#[test]
fn hex_written_from_bytes_decodes_back() {
    let bytes: Vec<u8> = (0..=255u8).collect();
    let mut text = String::new();
    for (i, b) in bytes.iter().enumerate() {
        if i % 2 == 0 {
            text.push_str(&format!("{:02X} ", b));
        } else {
            text.push_str(&format!("{:02x}\n", b));
        }
    }
    assert_eq!(decode_hex(&text).unwrap().as_slice(), bytes.as_slice());
}

#[test]
fn base64_written_from_bytes_decodes_back() {
    // "Hello, world" in standard base64 with padding, white space inserted,
    // and text after the padding that decoding ignores.
    assert_eq!(
        decode_base64("SGVs bG8s\nIHdv cmxk").unwrap().as_slice(),
        b"Hello, world"
    );
    assert_eq!(decode_base64("SGVsbG8=").unwrap().as_slice(), b"Hello");
    assert_eq!(decode_base64("SGVsbG8").unwrap().as_slice(), b"Hello");
    assert_eq!(decode_base64("SGVsbA==").unwrap().as_slice(), b"Hell");
    assert_eq!(decode_base64("SGVsbA==!!not base64").unwrap().as_slice(), b"Hell");
    assert_eq!(decode_base64("/+/+").unwrap().as_slice(), &[0xFF, 0xEF, 0xFE]);
}

#[test]
fn stream_hands_out_everything_after_the_header_once_in_order() {
    let mut stream = AnnouncementStream::new();
    let data: Vec<u8> = (0..200u32).map(|i| i as u8).collect();
    let mut out = Vec::new();
    let mut buf = [0u8; 7];
    for chunk in data.chunks(13) {
        stream.push_chunk(chunk);
        let n = stream.take_bytes(&mut buf);
        out.extend_from_slice(&buf[..n]);
    }
    loop {
        let n = stream.take_bytes(&mut buf);
        if n == 0 {
            break;
        }
        out.extend_from_slice(&buf[..n]);
    }
    assert_eq!(out.as_slice(), &data[44..]);
}

#[test]
fn kth_sample_reads_the_entry_of_k_times_the_increment() {
    let mut table = [0i16; 256];
    for (i, t) in table.iter_mut().enumerate() {
        *t = i as i16;
    }
    // 440 Hz at 48000 Hz: inc = (440 << 32) / 48000.
    let inc: u32 = ((440u64 << 32) / 48_000) as u32;
    let mut osc = SineGenerator::with_table(table, 48_000, 440);
    for k in 0..1000u64 {
        let expected = (((k * inc as u64) % (1u64 << 32)) >> 24) as i16;
        assert_eq!(osc.sample(), expected);
    }
}
