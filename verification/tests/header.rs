use kona_client::header::{Header, Sealed};
use kona_client::primitives::{BlockInfo, B256};

fn encode(parent: [u8; 32], number: u64, timestamp: u64, state_root: [u8; 32]) -> Vec<u8> {
    let header = alloy_consensus::Header {
        parent_hash: alloy_primitives::B256::from(parent),
        number,
        timestamp,
        state_root: alloy_primitives::B256::from(state_root),
        ..Default::default()
    };
    alloy_rlp::encode(&header)
}

#[test]
fn decode_reads_the_fields() {
    let rlp = encode([1; 32], 77, 1_700_000_000, [2; 32]);
    let header = Header::decode(rlp.clone()).unwrap();
    assert_eq!(header.parent_hash(), B256([1; 32]));
    assert_eq!(header.number(), 77);
    assert_eq!(header.timestamp(), 1_700_000_000);
    assert_eq!(header.state_root(), B256([2; 32]));
    assert_eq!(header.encoded(), &rlp);
}

#[test]
fn decode_refuses_malformed_input() {
    assert!(Header::decode(Vec::new()).is_none());
    assert!(Header::decode(vec![0xc0]).is_none());
    assert!(Header::decode(b"not a header".to_vec()).is_none());
    let mut rlp = encode([1; 32], 1, 1, [2; 32]);
    rlp.push(0);
    assert!(Header::decode(rlp.clone()).is_none());
    rlp.truncate(rlp.len() - 2);
    assert!(Header::decode(rlp).is_none());
}

#[test]
fn hash_is_keccak_of_the_encoding() {
    let rlp = encode([9; 32], 5, 6, [7; 32]);
    let header = Header::decode(rlp.clone()).unwrap();
    let expected = alloy_primitives::keccak256(&rlp);
    assert_eq!(header.hash_slow(), B256(expected.0));
    let outside = alloy_rlp::decode_exact::<alloy_consensus::Header>(&rlp).unwrap();
    assert_eq!(header.hash_slow(), B256(outside.hash_slow().0));
}

#[test]
fn seal_pairs_header_with_its_hash() {
    let header = Header::decode(encode([9; 32], 5, 6, [7; 32])).unwrap();
    let hash = header.hash_slow();
    let sealed = header.clone().seal_slow();
    assert_eq!(sealed.hash(), hash);
    assert_eq!(sealed.inner(), &header);
    assert_eq!(sealed.clone().unseal(), header);
}

#[test]
fn sealing_with_a_wrong_hash_is_refused() {
    let header = Header::decode(encode([9; 32], 5, 6, [7; 32])).unwrap();
    let hash = header.hash_slow();
    assert!(Sealed::new_checked(header.clone(), hash).is_some());
    assert!(Sealed::new_checked(header.clone(), B256([0; 32])).is_none());
    assert!(Sealed::new_checked(header, B256([0xff; 32])).is_none());
}

#[test]
fn block_info_takes_the_header_fields() {
    let header = Header::decode(encode([4; 32], 12, 34, [5; 32])).unwrap();
    let hash = header.hash_slow();
    assert_eq!(
        header.block_info(hash),
        BlockInfo { hash, number: 12, parent_hash: B256([4; 32]), timestamp: 34 }
    );
}

#[test]
fn duplicate_is_equal() {
    let header = Header::decode(encode([4; 32], 12, 34, [5; 32])).unwrap();
    assert_eq!(header.duplicate(), header);
}
