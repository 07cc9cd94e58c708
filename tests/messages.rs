use nucypher_core::node_metadata::{
    MetadataRequest, MetadataResponse, NodeMetadata, NodeMetadataPayload, VerifiedMetadataResponse,
};
use nucypher_core::retrieval_kit::{MessageKit, RetrievalKit};
use nucypher_core::treasure_map::{
    AuthorizedTreasureMap, DecryptionFailure, EncryptedTreasureMap, EncryptionFailure, TreasureMap,
};
use nucypher_core::versioning::DeserializationError;
use nucypher_core::crypto::{SecretKey, Signer};
use umbral_pre::SerializableToSecretArray;

fn secret_bytes() -> Vec<u8> {
    umbral_pre::SecretKey::random().to_secret_array().as_secret().to_vec()
}

fn new_key() -> SecretKey {
    SecretKey::from_bytes(&secret_bytes()).unwrap()
}

fn key_bytes(sk: &SecretKey) -> Vec<u8> {
    sk.public_key()
}

fn new_signer() -> (SecretKey, Signer) {
    let bytes = secret_bytes();
    (SecretKey::from_bytes(&bytes).unwrap(), Signer::new(SecretKey::from_bytes(&bytes).unwrap()))
}

fn payload(verifying_key: Vec<u8>, evidence: Option<Vec<u8>>) -> NodeMetadataPayload {
    NodeMetadataPayload {
        canonical_address: vec![7u8; 20],
        domain: "mainnet-ü".to_string(),
        timestamp_epoch: 1_650_000_000,
        verifying_key,
        encrypting_key: key_bytes(&new_key()),
        certificate_bytes: b"-----BEGIN CERTIFICATE-----".to_vec(),
        host: "node.example.org".to_string(),
        port: 9151,
        decentralized_identity_evidence: evidence,
    }
}

fn signed_node() -> NodeMetadata {
    let (sk, signer) = new_signer();
    NodeMetadata::new(&signer, &payload(key_bytes(&sk), Some(vec![1, 2, 3])))
}

#[test]
fn node_metadata_round_trip() {
    let node = signed_node();
    let back = NodeMetadata::from_bytes(&node.to_bytes()).unwrap();
    assert_eq!(back, node);
}

#[test]
fn node_metadata_round_trip_with_empty_evidence() {
    let (sk, signer) = new_signer();
    for evidence in [None, Some(vec![])] {
        let node = NodeMetadata::new(&signer, &payload(key_bytes(&sk), evidence));
        assert_eq!(NodeMetadata::from_bytes(&node.to_bytes()).unwrap(), node);
    }
}

#[test]
fn node_metadata_verifies_and_detects_tampering() {
    let node = signed_node();
    assert!(node.verify());
    let mut tampered = node.clone();
    tampered.payload.port = 9152;
    assert!(!tampered.verify());
    let mut other_key = node.clone();
    other_key.payload.verifying_key = key_bytes(&new_key());
    assert!(!other_key.verify());
}

#[test]
fn flipped_payload_byte_fails_verification() {
    let node = signed_node();
    let bytes = node.payload.to_bytes();
    let mut flipped = bytes.clone();
    let last = flipped.len() - 1;
    flipped[last] ^= 1;
    match NodeMetadataPayload::from_canonical_bytes(&flipped) {
        Some(p) => {
            let mut changed = node.clone();
            changed.payload = p;
            assert!(!changed.verify());
        }
        None => {}
    }
}

#[test]
fn metadata_request_round_trip_empty_and_full() {
    let empty = MetadataRequest::new(&vec![0u8; 32], &[]);
    assert!(empty.announce_nodes.is_empty());
    assert_eq!(MetadataRequest::from_bytes(&empty.to_bytes()).unwrap(), empty);
    let nodes = vec![signed_node(), signed_node()];
    let full = MetadataRequest::new(&vec![9u8; 32], &nodes);
    let back = MetadataRequest::from_bytes(&full.to_bytes()).unwrap();
    assert_eq!(back, full);
    assert!(back.announce_nodes.iter().all(|n| n.verify()));
}

#[test]
fn metadata_response_verifies_only_under_signer_key() {
    let (sk, signer) = new_signer();
    let nodes = vec![signed_node()];
    let response = MetadataResponse::new(&signer, &VerifiedMetadataResponse::new(123, &nodes));
    let verified = response.verify(&key_bytes(&sk)).unwrap();
    assert_eq!(verified.timestamp_epoch, 123);
    assert_eq!(verified.announce_nodes, nodes);
    assert!(response.verify(&key_bytes(&new_key())).is_none());
}

#[test]
fn metadata_response_timestamp_tampering_invalidates() {
    let (sk, signer) = new_signer();
    let nodes = vec![signed_node(), signed_node()];
    let mut response = MetadataResponse::new(&signer, &VerifiedMetadataResponse::new(500, &nodes));
    response.response.timestamp_epoch = 501;
    assert!(response.response.announce_nodes.iter().all(|n| n.verify()));
    assert!(response.verify(&key_bytes(&sk)).is_none());
}

#[test]
fn metadata_response_round_trip() {
    let signer = new_signer().1;
    let response = MetadataResponse::new(&signer, &VerifiedMetadataResponse::new(7, &[]));
    assert_eq!(MetadataResponse::from_bytes(&response.to_bytes()).unwrap(), response);
}

#[test]
fn brand_mismatch_between_types() {
    let node = signed_node();
    let bytes = node.to_bytes();
    assert_eq!(MetadataRequest::from_bytes(&bytes), Err(DeserializationError::BrandMismatch));
    assert_eq!(MetadataResponse::from_bytes(&bytes), Err(DeserializationError::BrandMismatch));
    assert_eq!(RetrievalKit::from_bytes(&bytes), Err(DeserializationError::BrandMismatch));
    assert_eq!(TreasureMap::from_bytes(&bytes), Err(DeserializationError::BrandMismatch));
    assert_eq!(EncryptedTreasureMap::from_bytes(&bytes), Err(DeserializationError::BrandMismatch));
    assert_eq!(AuthorizedTreasureMap::from_bytes(&bytes), Err(DeserializationError::BrandMismatch));
    let kit = RetrievalKit::new(&vec![1, 2], &[]).to_bytes();
    assert_eq!(NodeMetadata::from_bytes(&kit), Err(DeserializationError::BrandMismatch));
}

#[test]
fn brands_and_versions() {
    assert_eq!(&NodeMetadata::brand(), b"NdMd");
    assert_eq!(&MetadataRequest::brand(), b"MdRq");
    assert_eq!(&MetadataResponse::brand(), b"MdRs");
    assert_eq!(&RetrievalKit::brand(), b"RKit");
    assert_eq!(&TreasureMap::brand(), b"TMap");
    assert_eq!(&AuthorizedTreasureMap::brand(), b"AMap");
    assert_eq!(&EncryptedTreasureMap::brand(), b"EMap");
    assert_eq!(NodeMetadata::version(), (1, 0));
    assert_eq!(EncryptedTreasureMap::version(), (1, 0));
}

#[test]
fn major_version_gating() {
    let mut bytes = signed_node().to_bytes();
    bytes[5] = 2;
    assert_eq!(
        NodeMetadata::from_bytes(&bytes),
        Err(DeserializationError::MajorVersionMismatch { expected: 1, received: 2 })
    );
}

#[test]
fn minor_version_gating() {
    let mut bytes = signed_node().to_bytes();
    bytes[7] = 1;
    assert_eq!(
        NodeMetadata::from_bytes(&bytes),
        Err(DeserializationError::MinorVersionTooNew { supported: 0, received: 1 })
    );
    assert!(NodeMetadata::unversioned_from_bytes(1, &bytes[8..]).is_none());
}

#[test]
fn short_and_malformed_input() {
    assert_eq!(NodeMetadata::from_bytes(b"NdMd"), Err(DeserializationError::TooShort));
    let mut bytes = b"NdMd".to_vec();
    bytes.extend_from_slice(&[0, 1, 0, 0, 0, 0, 0]);
    assert_eq!(NodeMetadata::from_bytes(&bytes), Err(DeserializationError::PayloadMalformed));
}

#[test]
fn retrieval_kit_exact_encoding() {
    let kit = RetrievalKit::new(&vec![1, 2], &[]);
    let mut expected = b"RKit".to_vec();
    expected.extend_from_slice(&[0, 1, 0, 0]);
    expected.extend_from_slice(&[0, 0, 0, 0, 0, 0, 0, 2, 1, 2]);
    expected.extend_from_slice(&[0, 0, 0, 0, 0, 0, 0, 0]);
    assert_eq!(kit.to_bytes(), expected);
}

#[test]
fn retrieval_kit_accumulation() {
    let kit = RetrievalKit::from_message_kit(&MessageKit { capsule: vec![5; 98], ciphertext: vec![1] });
    assert!(kit.queried_addresses().is_empty());
    assert_eq!(kit.capsule(), &vec![5; 98]);
    let a = vec![1u8; 20];
    let b = vec![2u8; 20];
    let first = RetrievalKit::new(kit.capsule(), &[a.clone(), b.clone(), a.clone()]);
    let second = RetrievalKit::new(kit.capsule(), &[b.clone(), a.clone()]);
    assert_eq!(first.queried_addresses(), &vec![a.clone(), b.clone()]);
    assert_eq!(second.queried_addresses(), &vec![a, b]);
    assert_eq!(first, second);
    assert_eq!(first.to_bytes(), second.to_bytes());
    let back = RetrievalKit::from_bytes(&first.to_bytes()).unwrap();
    assert_eq!(back, first);
}

fn kfrags(n: usize, threshold: usize, _signer: &Signer) -> Vec<(Vec<u8>, Vec<u8>, umbral_pre::VerifiedKeyFrag)> {
    let delegating = umbral_pre::SecretKey::random();
    let receiving = umbral_pre::SecretKey::random();
    let frags = umbral_pre::generate_kfrags(
        &delegating,
        &receiving.public_key(),
        &umbral_pre::Signer::new(umbral_pre::SecretKey::random()),
        threshold,
        n,
        true,
        true,
    );
    frags
        .iter()
        .enumerate()
        .map(|(i, k)| (vec![i as u8; 20], key_bytes(&new_key()), k.clone()))
        .collect()
}

#[test]
fn treasure_map_five_assignments_threshold_three() {
    let (publisher_sk, signer) = new_signer();
    let assigned = kfrags(5, 3, &signer);
    let map = TreasureMap::new(&signer, &vec![3u8; 16], &key_bytes(&new_key()), &assigned, 3)
        .unwrap();
    assert_eq!(map.threshold, 3);
    assert_eq!(map.destinations.len(), 5);
    assert_eq!(map.publisher_verifying_key, key_bytes(&publisher_sk));
    assert_eq!(map.publisher_verifying_key, signer.verifying_key());
    for (i, (address, _)) in map.destinations.iter().enumerate() {
        assert_eq!(address, &vec![i as u8; 20]);
    }
    assert_eq!(TreasureMap::from_bytes(&map.to_bytes()).unwrap(), map);
}

#[test]
fn treasure_map_invalid_node_key() {
    let signer = new_signer().1;
    let mut assigned = kfrags(2, 1, &signer);
    assigned[1].1 = vec![0u8; 33];
    let r = TreasureMap::new(&signer, &vec![3u8; 16], &key_bytes(&new_key()), &assigned, 1);
    assert_eq!(r.err(), Some(EncryptionFailure::InvalidRecipientKey));
}

#[test]
fn treasure_map_encrypt_decrypt_and_substitution() {
    let (publisher_sk, signer) = new_signer();
    let assigned = kfrags(3, 2, &signer);
    let map = TreasureMap::new(&signer, &vec![4u8; 16], &key_bytes(&new_key()), &assigned, 2)
        .unwrap();
    let r1 = new_key();
    let r2 = new_key();
    let encrypted = map.encrypt(&signer, &key_bytes(&r1)).unwrap();
    let wire = EncryptedTreasureMap::from_bytes(&encrypted.to_bytes()).unwrap();
    assert_eq!(wire, encrypted);
    assert_eq!(wire.decrypt(&r1, &key_bytes(&publisher_sk)), Ok(Some(map.clone())));
    assert_eq!(wire.decrypt(&r2, &key_bytes(&publisher_sk)), Err(DecryptionFailure::DecryptionFailed));
    assert_eq!(wire.decrypt(&r1, &key_bytes(&new_key())), Ok(None));
}

#[test]
fn authorization_bound_to_recipient() {
    let (publisher_sk, signer) = new_signer();
    let map = TreasureMap::new(&signer, &vec![4u8; 16], &key_bytes(&new_key()), &kfrags(1, 1, &signer), 1)
        .unwrap();
    let r1 = key_bytes(&new_key());
    let r2 = key_bytes(&new_key());
    let authorized = AuthorizedTreasureMap::new(&signer, &r1, &map);
    assert_eq!(authorized.verify(&r1, &key_bytes(&publisher_sk)), Some(map.clone()));
    assert_eq!(authorized.verify(&r2, &key_bytes(&publisher_sk)), None);
    let plaintext = authorized.to_bytes();
    assert_eq!(
        nucypher_core::treasure_map::open_authorized_map(&plaintext, &r2, &key_bytes(&publisher_sk)),
        Ok(None)
    );
    assert_eq!(
        nucypher_core::treasure_map::open_authorized_map(&plaintext, &r1, &key_bytes(&publisher_sk)),
        Ok(Some(map))
    );
}

#[test]
fn encrypt_for_invalid_key() {
    let signer = new_signer().1;
    let map = TreasureMap::new(&signer, &vec![4u8; 16], &key_bytes(&new_key()), &kfrags(1, 1, &signer), 1)
        .unwrap();
    assert_eq!(map.encrypt(&signer, &vec![1, 2, 3]).err(), Some(EncryptionFailure::InvalidRecipientKey));
}

#[test]
fn open_authorized_map_rejects_garbage() {
    assert_eq!(
        nucypher_core::treasure_map::open_authorized_map(b"TMap\0\x01\0\0", &vec![], &vec![]),
        Err(DecryptionFailure::Deserialization(DeserializationError::BrandMismatch))
    );
}

#[test]
fn fresh_signatures_verify_under_signer_key() {
    let (sk, signer) = new_signer();
    let node = NodeMetadata::new(&signer, &payload(signer.verifying_key(), None));
    assert!(node.verify());
    let response = MetadataResponse::new(&signer, &VerifiedMetadataResponse::new(1, &[]));
    let parsed = MetadataResponse::from_bytes(&response.to_bytes()).unwrap();
    assert_eq!(parsed.verify(&key_bytes(&sk)), Some(response.response.clone()));
}

#[test]
fn secret_key_rejects_bad_bytes() {
    assert!(SecretKey::from_bytes(&[0u8; 32]).is_none());
    assert!(SecretKey::from_bytes(&[1u8; 5]).is_none());
    assert!(SecretKey::from_bytes(&secret_bytes()).is_some());
}

#[test]
fn cancelling_capsule_points_fail_decryption() {
    let point = key_bytes(&new_key());
    let mut capsule = point.clone();
    let mut negated = point.clone();
    negated[0] = if point[0] == 2 { 3 } else { 2 };
    capsule.extend_from_slice(&negated);
    capsule.extend_from_slice(&[7u8; 32]);
    assert!(nucypher_core::crypto::capsule_points_cancel(&capsule));
    let mut other = capsule.clone();
    other[33] = point[0];
    assert!(!nucypher_core::crypto::capsule_points_cancel(&other));
    let encrypted = EncryptedTreasureMap { capsule, ciphertext: vec![0u8; 40] };
    assert_eq!(encrypted.decrypt(&new_key(), &key_bytes(&new_key())), Err(DecryptionFailure::DecryptionFailed));
}

#[test]
fn sealed_fragment_from_bytes() {
    let (_, signer) = new_signer();
    let recipient = key_bytes(&new_key());
    let sealed = nucypher_core::treasure_map::seal_key_frag(&signer, &recipient, &vec![1u8; 16], &[9u8; 260]).unwrap();
    assert_eq!(sealed.capsule.len(), 98);
    assert_eq!(
        nucypher_core::treasure_map::seal_key_frag(&signer, &vec![0u8; 33], &vec![1u8; 16], &[9u8; 260]).err(),
        Some(EncryptionFailure::InvalidRecipientKey)
    );
}
