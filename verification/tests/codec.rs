use neura_dns::codec::{decode, discriminator_bytes, encode, RECORD_SIZE};
use neura_dns::record::DomainRecord;

fn sample_record() -> DomainRecord {
    DomainRecord {
        domain_name: b"example.com".to_vec(),
        record: b"8.8.8.8".to_vec(),
        authority: vec![7u8; 32],
        created_at: 1_700_000_000,
    }
}

#[test]
fn encoded_size_is_fixed() {
    let buf = encode(&sample_record());
    assert_eq!(buf.len(), RECORD_SIZE);
    assert_eq!(buf.len(), 327);

    let tiny = DomainRecord {
        domain_name: b"a.b".to_vec(),
        record: b"0.0.0.0".to_vec(),
        authority: vec![0u8; 32],
        created_at: 0,
    };
    assert_eq!(encode(&tiny).len(), 327);
}

#[test]
fn layout_offsets() {
    let rec = sample_record();
    let buf = encode(&rec);
    assert_eq!(&buf[0..8], discriminator_bytes().as_slice());
    // domain length 11, little-endian u32 at offset 8
    assert_eq!(&buf[8..12], &[11, 0, 0, 0]);
    assert_eq!(&buf[12..23], b"example.com");
    assert_eq!(buf[23], 0); // zero tail past the live domain bytes
    // record length 7, little-endian u32 at offset 268
    assert_eq!(&buf[268..272], &[7, 0, 0, 0]);
    assert_eq!(&buf[272..279], b"8.8.8.8");
    assert_eq!(buf[279], 0);
    assert_eq!(&buf[287..319], vec![7u8; 32].as_slice());
    // 1_700_000_000 = 0x6553F100, little-endian i64 at offset 319
    assert_eq!(&buf[319..327], &[0x00, 0xf1, 0x53, 0x65, 0, 0, 0, 0]);
}

#[test]
fn round_trip_returns_fields() {
    let rec = sample_record();
    let buf = encode(&rec);
    let back = decode(&buf).expect("encoded record must decode");
    assert_eq!(back.domain_name, rec.domain_name);
    assert_eq!(back.record, rec.record);
    assert_eq!(back.authority, rec.authority);
    assert_eq!(back.created_at, rec.created_at);
}

#[test]
fn round_trip_negative_timestamp() {
    let rec = DomainRecord {
        domain_name: b"old.example".to_vec(),
        record: b"10.0.0.1".to_vec(),
        authority: vec![1u8; 32],
        created_at: -62_135_596_800,
    };
    let back = decode(&encode(&rec)).expect("encoded record must decode");
    assert_eq!(back.created_at, -62_135_596_800);
}

#[test]
fn round_trip_extreme_timestamps() {
    for ts in [i64::MIN, -1, 0, 1, i64::MAX] {
        let rec = DomainRecord {
            domain_name: b"t.t".to_vec(),
            record: b"1.1.1.1".to_vec(),
            authority: vec![9u8; 32],
            created_at: ts,
        };
        let back = decode(&encode(&rec)).expect("encoded record must decode");
        assert_eq!(back.created_at, ts);
    }
}

#[test]
fn short_buffer_rejected() {
    let mut buf = encode(&sample_record());
    buf.pop();
    assert!(decode(&buf).is_none());
    assert!(decode(&Vec::new()).is_none());
}

#[test]
fn longer_buffer_tolerated() {
    let rec = sample_record();
    let mut buf = encode(&rec);
    buf.push(0xff);
    let back = decode(&buf).expect("trailing bytes past the layout are ignored");
    assert_eq!(back.domain_name, rec.domain_name);
}

#[test]
fn foreign_discriminator_rejected() {
    let mut buf = encode(&sample_record());
    buf[0] ^= 0xff;
    assert!(decode(&buf).is_none());
}

#[test]
fn oversized_domain_length_rejected() {
    let mut buf = encode(&sample_record());
    // claim a 257-byte domain: 257 = 0x0101
    buf[8] = 0x01;
    buf[9] = 0x01;
    assert!(decode(&buf).is_none());
}

#[test]
fn oversized_record_length_rejected() {
    let mut buf = encode(&sample_record());
    buf[268] = 16;
    assert!(decode(&buf).is_none());
}

#[test]
fn undefined_tail_does_not_affect_decoding() {
    let rec = sample_record();
    let mut buf = encode(&rec);
    // scribble past the live domain and record bytes
    for b in buf[30..268].iter_mut() {
        *b = 0xaa;
    }
    buf[280] = 0xbb;
    let back = decode(&buf).expect("tail bytes past the length prefixes are undefined");
    assert_eq!(back.domain_name, rec.domain_name);
    assert_eq!(back.record, rec.record);
}
