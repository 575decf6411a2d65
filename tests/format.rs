use reflex_sim::format::{ArtifactError, Container, ModelType, ReflexHeader, HEADER_SIZE, MAGIC, VERSION};

fn sample_container() -> Container {
    Container {
        header: ReflexHeader::new(ModelType::DecisionTree, 1, 1, 1728000000, 0, 0, 0),
        model: b"[[{\"feature_idx\":255}]]".to_vec(),
        bounds: b"{\"min\":[0.0],\"max\":[100.0]}".to_vec(),
        metadata: b"{\"notes\":\"test reflex\"}".to_vec(),
    }
}

fn with_fresh_crc(mut bytes: Vec<u8>) -> Vec<u8> {
    let n = bytes.len() - 4;
    let crc = crc32fast::hash(&bytes[..n]);
    bytes[n..].copy_from_slice(&crc.to_le_bytes());
    bytes
}

#[test]
fn test_header_roundtrip() {
    let h = ReflexHeader::new(ModelType::DecisionTree, 10, 2, 1728000000, 100, 50, 200);
    let bytes = h.to_bytes();
    let h2 = ReflexHeader::from_bytes(&bytes).unwrap();
    assert_eq!(h.magic, h2.magic);
    assert_eq!(h.version, h2.version);
    assert_eq!(h.model_type, h2.model_type);
    assert_eq!(h.feature_count, h2.feature_count);
}

#[test]
fn header_bytes_are_little_endian() {
    let h = ReflexHeader::new(ModelType::Linear, 10, 2, 0x0102030405060708, 100, 50, 0x01020304);
    let b = h.to_bytes();
    assert_eq!(b.len(), HEADER_SIZE);
    assert_eq!(&b[0..4], b"NEM1");
    assert_eq!(&b[4..6], &[1, 0]);
    assert_eq!(b[6], 1);
    assert_eq!(b[7], 10);
    assert_eq!(b[8], 2);
    assert_eq!(&b[9..17], &[8, 7, 6, 5, 4, 3, 2, 1]);
    assert_eq!(&b[17..21], &[100, 0, 0, 0]);
    assert_eq!(&b[21..25], &[50, 0, 0, 0]);
    assert_eq!(&b[25..29], &[4, 3, 2, 1]);
    let h2 = ReflexHeader::from_bytes(&b).unwrap();
    assert_eq!(h2.created_at_unix, 0x0102030405060708);
    assert_eq!(h2.metadata_size_bytes, 0x01020304);
    assert_eq!(MAGIC, *b"NEM1");
    assert_eq!(VERSION, 1);
}

#[test]
fn header_from_short_buffer_fails() {
    assert_eq!(ReflexHeader::from_bytes(&[0u8; 28]).err(), Some(ArtifactError::Truncated));
}

#[test]
fn header_validate_checks_magic_then_version() {
    let mut h = ReflexHeader::new(ModelType::DecisionTree, 1, 1, 0, 0, 0, 0);
    assert_eq!(h.validate(), Ok(()));
    h.version = 2;
    assert_eq!(h.validate(), Err(ArtifactError::BadVersion));
    h.magic = *b"NEM2";
    assert_eq!(h.validate(), Err(ArtifactError::BadMagic));
}

#[test]
fn container_round_trip_keeps_payloads_and_crc() {
    let c = sample_container();
    let bytes = c.to_bytes();
    let n = bytes.len() - 4;
    assert_eq!(bytes.len(), HEADER_SIZE + c.model.len() + c.bounds.len() + c.metadata.len() + 4);
    assert_eq!(u32::from_le_bytes([bytes[n], bytes[n + 1], bytes[n + 2], bytes[n + 3]]), crc32fast::hash(&bytes[..n]));
    let d = Container::from_bytes(&bytes).unwrap();
    assert_eq!(d.model, c.model);
    assert_eq!(d.bounds, c.bounds);
    assert_eq!(d.metadata, c.metadata);
    assert_eq!(d.header.magic, *b"NEM1");
    assert_eq!(d.header.version, 1);
    assert_eq!(d.header.feature_count, 1);
    assert_eq!(d.header.output_count, 1);
    assert_eq!(d.header.created_at_unix, 1728000000);
    assert_eq!(d.header.model_size_bytes as usize, c.model.len());
    assert_eq!(d.header.bounds_size_bytes as usize, c.bounds.len());
    assert_eq!(d.header.metadata_size_bytes as usize, c.metadata.len());
}

#[test]
fn container_rejects_any_single_bit_flip() {
    let bytes = sample_container().to_bytes();
    for i in 0..bytes.len() {
        for bit in 0..8 {
            let mut b = bytes.clone();
            b[i] ^= 1 << bit;
            assert!(Container::from_bytes(&b).is_err(), "flip at byte {} bit {}", i, bit);
        }
    }
}

#[test]
fn container_errors_in_checking_order() {
    let bytes = sample_container().to_bytes();
    assert_eq!(Container::from_bytes(&bytes[..32]).err(), Some(ArtifactError::Truncated));
    let mut flipped = bytes.clone();
    flipped[40] ^= 0x10;
    assert_eq!(Container::from_bytes(&flipped).err(), Some(ArtifactError::ChecksumMismatch));
    let mut bad_magic = bytes.clone();
    bad_magic[3] = b'2';
    assert_eq!(Container::from_bytes(&with_fresh_crc(bad_magic)).err(), Some(ArtifactError::BadMagic));
    let mut bad_version = bytes.clone();
    bad_version[4] = 2;
    assert_eq!(Container::from_bytes(&with_fresh_crc(bad_version)).err(), Some(ArtifactError::BadVersion));
    let mut overrun = bytes.clone();
    overrun[25] = 0xff;
    assert_eq!(Container::from_bytes(&with_fresh_crc(overrun)).err(), Some(ArtifactError::PayloadOverrun));
}

#[test]
fn container_of_empty_payloads_is_thirty_three_bytes() {
    let c = Container {
        header: ReflexHeader::new(ModelType::DecisionTree, 0, 0, 0, 9, 9, 9),
        model: vec![],
        bounds: vec![],
        metadata: vec![],
    };
    let bytes = c.to_bytes();
    assert_eq!(bytes.len(), 33);
    let d = Container::from_bytes(&bytes).unwrap();
    assert_eq!(d.header.model_size_bytes, 0);
    assert!(d.model.is_empty() && d.bounds.is_empty() && d.metadata.is_empty());
}

#[test]
fn container_checks_given_crc() {
    let bytes = sample_container().to_bytes();
    let n = bytes.len() - 4;
    let crc = crc32fast::hash(&bytes[..n]);
    let c = Container::from_bytes_with_crc(&bytes, crc).unwrap();
    assert_eq!(c.model, sample_container().model);
    assert_eq!(Container::from_bytes_with_crc(&bytes, crc ^ 1).err(), Some(ArtifactError::ChecksumMismatch));
    assert_eq!(Container::from_bytes_with_crc(&bytes[..20], 0).err(), Some(ArtifactError::Truncated));
}
