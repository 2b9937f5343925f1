use smolcar::codec::{decode_block, encode_block};
use smolcar::records::{EventInfo, ExtrinsicInfo, StoredBlock};

fn sample_block() -> StoredBlock {
    StoredBlock {
        number: 1234567,
        hash: "0xabc:def;123".to_string(),
        extrinsics: vec![
            ExtrinsicInfo {
                index: 0,
                hash: "0x01".to_string(),
                action: "Timestamp/set".to_string(),
                params: "{now: 1}".to_string(),
                events: vec![],
            },
            ExtrinsicInfo {
                index: 3,
                hash: "0x02".to_string(),
                action: "unknown".to_string(),
                params: String::new(),
                events: vec![
                    EventInfo {
                        pallet: "Balances".to_string(),
                        variant: "Transfer".to_string(),
                        data: "from: a, to: b".to_string(),
                    },
                    EventInfo {
                        pallet: "System".to_string(),
                        variant: "ExtrinsicSuccess".to_string(),
                        data: String::new(),
                    },
                ],
            },
        ],
        timestamp: 1700000000,
    }
}

fn assert_blocks_equal(a: &StoredBlock, b: &StoredBlock) {
    assert_eq!(a.number, b.number);
    assert_eq!(a.hash, b.hash);
    assert_eq!(a.timestamp, b.timestamp);
    assert_eq!(a.extrinsics.len(), b.extrinsics.len());
    for (x, y) in a.extrinsics.iter().zip(b.extrinsics.iter()) {
        assert_eq!(x.index, y.index);
        assert_eq!(x.hash, y.hash);
        assert_eq!(x.action, y.action);
        assert_eq!(x.params, y.params);
        assert_eq!(x.events.len(), y.events.len());
        for (e, f) in x.events.iter().zip(y.events.iter()) {
            assert_eq!(e.pallet, f.pallet);
            assert_eq!(e.variant, f.variant);
            assert_eq!(e.data, f.data);
        }
    }
}

#[test]
fn round_trip_preserves_the_record() {
    let b = sample_block();
    let text = encode_block(&b);
    let back = decode_block(&text).unwrap();
    assert_blocks_equal(&b, &back);
}

#[test]
fn round_trip_with_negative_timestamp_and_empty_block() {
    let b = StoredBlock {
        number: 0,
        hash: String::new(),
        extrinsics: vec![],
        timestamp: -62135596800,
    };
    let text = encode_block(&b);
    let back = decode_block(&text).unwrap();
    assert_blocks_equal(&b, &back);
}

#[test]
fn round_trip_survives_multibyte_text() {
    let mut b = sample_block();
    b.hash = "héllo → 🌍".to_string();
    b.extrinsics[1].events[0].data = "Ω;:42".to_string();
    let text = encode_block(&b);
    let back = decode_block(&text).unwrap();
    assert_blocks_equal(&b, &back);
}

#[test]
fn malformed_text_is_rejected() {
    assert!(decode_block("").is_none());
    assert!(decode_block("garbage").is_none());
    assert!(decode_block("12").is_none());
    assert!(decode_block("-5;").is_none());
    // Trailing bytes after a valid record are an error, not ignored.
    let mut text = encode_block(&sample_block());
    let valid = text.clone();
    assert!(decode_block(&valid).is_some());
    text.push('x');
    assert!(decode_block(&text).is_none());
    // A truncated record is an error.
    let cut: String = valid.chars().take(valid.chars().count() - 1).collect();
    assert!(decode_block(&cut).is_none());
}

#[test]
fn decoding_pins_concrete_fields() {
    let text = encode_block(&sample_block());
    let back = decode_block(&text).unwrap();
    assert_eq!(back.number, 1234567);
    assert_eq!(back.extrinsics[1].events[0].variant, "Transfer");
    assert_eq!(back.extrinsics[0].params, "{now: 1}");
}
