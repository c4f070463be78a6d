use alloy_eips::eip2718::Encodable2718;
use kona_client::header::Header;
use kona_client::key::PreimageKey;
use kona_client::l1_provider::{HintWriterClient, NoHints, OracleL1ChainProvider, ProviderError};
use kona_client::oracle::{CachingOracle, Offline, OracleError, PreimageOracleClient};
use kona_client::primitives::{Address, BlockInfo, Log, Receipt, TxEnvelope, B256};
use kona_client::scenario::{check_l1_connectivity, ConnectivityError};
use kona_client::traits::ChainProvider;
use kona_client::trie::{ordered_list, TrieError};

type Entries = Vec<(PreimageKey, Vec<u8>)>;

fn keccak(bytes: &[u8]) -> B256 {
    B256(alloy_primitives::keccak256(bytes).0)
}

fn entry(bytes: Vec<u8>) -> (PreimageKey, Vec<u8>) {
    (PreimageKey::new_keccak256(keccak(&bytes).0), bytes)
}

/// The root of the trie of `items` by their indices, and all its nodes.
fn ordered_trie(items: &[Vec<u8>]) -> (B256, Vec<Vec<u8>>) {
    if items.is_empty() {
        return (B256(alloy_trie::EMPTY_ROOT_HASH.0), vec![vec![0x80]]);
    }
    let key = |i: usize| {
        let index = alloy_trie::root::adjust_index_for_rlp(i, items.len());
        (index, alloy_trie::Nibbles::unpack(alloy_rlp::encode_fixed_size(&index)))
    };
    let targets = (0..items.len()).map(|i| key(i).1).collect();
    let retainer = alloy_trie::proof::ProofRetainer::new(targets);
    let mut builder = alloy_trie::HashBuilder::default().with_proof_retainer(retainer);
    for i in 0..items.len() {
        let (index, path) = key(i);
        builder.add_leaf(path, &items[index]);
    }
    let root = builder.root();
    let nodes = builder.take_proof_nodes().into_nodes_sorted();
    (B256(root.0), nodes.into_iter().map(|(_, node)| node.to_vec()).collect())
}

fn header_rlp(header: &alloy_consensus::Header) -> Vec<u8> {
    alloy_rlp::encode(header)
}

/// The encodings of headers with the numbers `from..=to`, each the child of
/// the one before.
fn chain(from: u64, to: u64) -> Vec<Vec<u8>> {
    let mut parent = alloy_primitives::B256::repeat_byte(0xab);
    let mut headers = Vec::new();
    for number in from..=to {
        let header =
            alloy_consensus::Header { parent_hash: parent, number, timestamp: number * 12, ..Default::default() };
        let rlp = header_rlp(&header);
        parent = alloy_primitives::keccak256(&rlp);
        headers.push(rlp);
    }
    headers
}

fn provider(head: B256, entries: Entries) -> OracleL1ChainProvider<Offline, NoHints> {
    OracleL1ChainProvider::new(head, CachingOracle::new(Some(entries), Offline), NoHints)
}

#[test]
fn header_is_the_preimage_of_its_hash() {
    let headers = chain(7, 9);
    let head = keccak(&headers[2]);
    let mut provider = provider(head, headers.iter().cloned().map(entry).collect());
    let found = provider.header_by_hash(keccak(&headers[1])).unwrap();
    assert_eq!(found.number(), 8);
    assert_eq!(found.parent_hash(), keccak(&headers[0]));
    assert_eq!(found.hash_slow(), keccak(&headers[1]));
    assert_eq!(found, Header::decode(headers[1].clone()).unwrap());
}

#[test]
fn header_that_is_missing_or_forged_is_refused() {
    let headers = chain(7, 9);
    let hash = keccak(&headers[1]);
    let mut empty = provider(hash, vec![]);
    assert_eq!(
        empty.header_by_hash(hash),
        Err(ProviderError::Oracle(OracleError::OracleIO))
    );
    let forged = vec![(PreimageKey::new_keccak256(hash.0), headers[0].clone())];
    let mut provider = provider(hash, forged);
    assert_eq!(
        provider.header_by_hash(hash),
        Err(ProviderError::Oracle(OracleError::KeyMismatch))
    );
}

#[test]
fn preimage_that_is_no_header_is_refused() {
    let junk = b"not a header".to_vec();
    let hash = keccak(&junk);
    let mut provider = provider(hash, vec![entry(junk)]);
    assert_eq!(provider.header_by_hash(hash), Err(ProviderError::BadHeader));
}

/// A reader that answers for every key with the same bytes.
struct Liar(Vec<u8>);

impl PreimageOracleClient for Liar {
    fn get(&mut self, _key: PreimageKey) -> Result<Vec<u8>, OracleError> {
        Ok(self.0.clone())
    }

    fn get_exact(&mut self, _key: PreimageKey, _size: usize) -> Result<Vec<u8>, OracleError> {
        Ok(self.0.clone())
    }
}

#[test]
fn preimage_is_held_against_all_bytes_of_the_hash() {
    // The key holds the hash without its first byte: a hash that differs in
    // that byte only has the same key.
    let headers = chain(7, 7);
    let hash = keccak(&headers[0]);
    let mut other = hash;
    other.0[0] ^= 0xff;
    let mut provider = provider(other, vec![entry(headers[0].clone())]);
    assert!(provider.header_by_hash(hash).is_ok());
    assert_eq!(provider.header_by_hash(other), Err(ProviderError::HashMismatch));

    let oracle = CachingOracle::new(None, Liar(headers[0].clone()));
    let mut lied_to = OracleL1ChainProvider::new(hash, oracle, NoHints);
    assert!(lied_to.header_by_hash(hash).is_ok());
    assert_eq!(
        lied_to.header_by_hash(B256([1; 32])),
        Err(ProviderError::Oracle(OracleError::KeyMismatch))
    );
}

#[test]
fn block_is_found_by_walking_down_from_the_head() {
    let headers = chain(100, 105);
    let head = keccak(&headers[5]);
    let mut provider = provider(head, headers.iter().cloned().map(entry).collect());
    for (i, rlp) in headers.iter().enumerate() {
        let number = 100 + i as u64;
        let parent = if i == 0 { B256([0xab; 32]) } else { keccak(&headers[i - 1]) };
        assert_eq!(
            provider.block_info_by_number(number),
            Ok(BlockInfo {
                hash: keccak(rlp),
                number,
                parent_hash: parent,
                timestamp: number * 12
            })
        );
    }
    assert_eq!(provider.block_info_by_number(106), Err(ProviderError::NotFound));
    assert_eq!(
        provider.block_info_by_number(99),
        Err(ProviderError::Oracle(OracleError::OracleIO))
    );
}

#[test]
fn chain_with_a_gap_in_the_numbers_is_refused() {
    let low = alloy_consensus::Header { number: 5, ..Default::default() };
    let low_rlp = header_rlp(&low);
    let high = alloy_consensus::Header {
        number: 7,
        parent_hash: alloy_primitives::keccak256(&low_rlp),
        ..Default::default()
    };
    let high_rlp = header_rlp(&high);
    let mut provider = provider(keccak(&high_rlp), vec![entry(low_rlp), entry(high_rlp)]);
    assert_eq!(provider.block_info_by_number(6), Err(ProviderError::BrokenChain));
    assert_eq!(provider.block_info_by_number(5), Err(ProviderError::BrokenChain));
    assert!(provider.block_info_by_number(7).is_ok());
}

#[test]
fn l1_connectivity_walk_over_the_oracle_reads_the_range_only() {
    // The oracle holds the headers 100 to 105 and nothing else: a read of any
    // other header fails.
    let headers = chain(100, 105);
    let head = keccak(&headers[5]);
    let mut provider = provider(head, headers.iter().cloned().map(entry).collect());
    assert_eq!(
        check_l1_connectivity(&mut provider, keccak(&headers[0]), 100, 105),
        Ok(head)
    );
    assert_eq!(
        check_l1_connectivity(&mut provider, keccak(&headers[2]), 102, 104),
        Ok(keccak(&headers[4]))
    );
    assert_eq!(
        check_l1_connectivity(&mut provider, keccak(&headers[0]), 99, 105),
        Err(ConnectivityError::Provider(ProviderError::Oracle(OracleError::OracleIO)))
    );
}

/// A hint writer that notes what it is given, and fails.
struct Hints(std::rc::Rc<std::cell::RefCell<Vec<String>>>);

impl HintWriterClient for Hints {
    fn write(&mut self, hint: &str) -> Result<(), OracleError> {
        self.0.borrow_mut().push(hint.to_string());
        Err(OracleError::OracleIO)
    }
}

/// The hints that a provider over `entries` writes when it is asked for the
/// header, the receipts and the transactions of the block `hash`.
fn hints_of(entries: Entries, hash: B256) -> Vec<String> {
    let noted = std::rc::Rc::new(std::cell::RefCell::new(Vec::new()));
    let oracle = CachingOracle::new(Some(entries), Offline);
    let mut provider = OracleL1ChainProvider::new(hash, oracle, Hints(noted.clone()));
    let _ = provider.header_by_hash(hash);
    let _ = provider.receipts_by_hash(hash);
    let _ = provider.block_info_and_transactions_by_hash(hash);
    let hints = noted.borrow().clone();
    hints
}

#[test]
fn hints_are_written_for_what_the_cache_lacks() {
    let headers = chain(7, 7);
    let hash = keccak(&headers[0]);
    let hex = alloy_primitives::hex::encode(hash.0);

    assert_eq!(hints_of(vec![], hash), vec![format!("l1-block-header {hex}"); 3]);
    assert_eq!(
        hints_of(vec![entry(headers[0].clone())], hash),
        vec![format!("l1-receipts {hex}"), format!("l1-transactions {hex}")]
    );
    assert_eq!(
        hints_of(vec![entry(headers[0].clone()), entry(vec![0x80])], hash),
        Vec::<String>::new()
    );
}

fn outside_receipt(n: u64) -> alloy_consensus::ReceiptEnvelope {
    let log = alloy_primitives::Log::new_unchecked(
        alloy_primitives::Address::repeat_byte(n as u8),
        vec![alloy_primitives::B256::repeat_byte(1), alloy_primitives::B256::repeat_byte(n as u8)],
        vec![n as u8; (n % 5) as usize].into(),
    );
    let receipt = alloy_consensus::Receipt {
        status: alloy_consensus::Eip658Value::Eip658(n % 3 != 0),
        cumulative_gas_used: 21_000 * (n + 1),
        logs: vec![log],
    };
    let receipt = alloy_consensus::ReceiptWithBloom::from(receipt);
    match n % 3 {
        0 => alloy_consensus::ReceiptEnvelope::Legacy(receipt),
        1 => alloy_consensus::ReceiptEnvelope::Eip1559(receipt),
        _ => alloy_consensus::ReceiptEnvelope::Eip4844(receipt),
    }
}

fn receipt(n: u64) -> Receipt {
    Receipt {
        status: n % 3 != 0,
        cumulative_gas_used: 21_000 * (n + 1),
        logs: vec![Log {
            address: Address([n as u8; 20]),
            topics: vec![B256([1; 32]), B256([n as u8; 32])],
            data: vec![n as u8; (n % 5) as usize],
        }],
    }
}

/// A block with `count` receipts and as many transactions: its hash and the
/// preimages of its header and of both tries.
fn block(count: u64) -> (B256, Entries, Vec<Vec<u8>>) {
    let envelopes: Vec<_> = (0..count).map(outside_receipt).collect();
    let receipts: Vec<Vec<u8>> = envelopes.iter().map(|r| r.encoded_2718()).collect();
    let transactions: Vec<Vec<u8>> =
        (0..count).map(|n| vec![0x02, n as u8, (n >> 8) as u8, 0xee, 0xff].repeat(9)).collect();
    let (receipts_root, receipt_nodes) = ordered_trie(&receipts);
    let (transactions_root, transaction_nodes) = ordered_trie(&transactions);
    assert_eq!(
        receipts_root,
        B256(alloy_consensus::proofs::calculate_receipt_root(&envelopes).0)
    );
    let header = alloy_consensus::Header {
        number: 3,
        receipts_root: receipts_root.0.into(),
        transactions_root: transactions_root.0.into(),
        ..Default::default()
    };
    let rlp = header_rlp(&header);
    let hash = keccak(&rlp);
    let mut entries = vec![entry(rlp)];
    entries.extend(receipt_nodes.into_iter().map(entry));
    entries.extend(transaction_nodes.into_iter().map(entry));
    (hash, entries, transactions)
}

#[test]
fn receipts_come_in_the_order_of_their_indices() {
    for count in [0u64, 1, 2, 17, 127, 128, 129, 300] {
        let (hash, entries, _) = block(count);
        let mut provider = provider(hash, entries);
        let expected: Vec<Receipt> = (0..count).map(receipt).collect();
        assert_eq!(provider.receipts_by_hash(hash), Ok(expected), "{count} receipts");
    }
}

#[test]
fn transactions_come_in_the_order_of_their_indices() {
    for count in [0u64, 1, 2, 17, 127, 128, 129, 300] {
        let (hash, entries, transactions) = block(count);
        let mut provider = provider(hash, entries);
        let (info, found) = provider.block_info_and_transactions_by_hash(hash).unwrap();
        assert_eq!(
            info,
            BlockInfo { hash, number: 3, parent_hash: B256([0; 32]), timestamp: 0 }
        );
        let expected: Vec<TxEnvelope> =
            transactions.into_iter().map(|encoded| TxEnvelope { encoded }).collect();
        assert_eq!(found, expected, "{count} transactions");
    }
}

#[test]
fn trie_with_a_missing_node_is_refused() {
    let (hash, mut entries, _) = block(40);
    // The last entry is a node of the trie of the transactions.
    entries.pop();
    let mut provider = provider(hash, entries);
    assert!(provider.receipts_by_hash(hash).is_ok());
    assert_eq!(
        provider.block_info_and_transactions_by_hash(hash),
        Err(ProviderError::Trie(TrieError::Oracle(OracleError::OracleIO)))
    );
}

#[test]
fn leaf_that_is_no_receipt_is_refused() {
    let items = vec![b"no receipt at all, but long enough to stand alone".to_vec()];
    let (root, nodes) = ordered_trie(&items);
    let header =
        alloy_consensus::Header { receipts_root: root.0.into(), ..Default::default() };
    let rlp = header_rlp(&header);
    let hash = keccak(&rlp);
    let mut entries = vec![entry(rlp)];
    entries.extend(nodes.into_iter().map(entry));
    let mut provider = provider(hash, entries);
    assert_eq!(provider.receipts_by_hash(hash), Err(ProviderError::BadReceipt));
}

#[test]
fn ordered_list_walks_the_trie() {
    let items: Vec<Vec<u8>> = (0..200u32).map(|n| vec![n as u8; 40 + (n % 7) as usize]).collect();
    let (root, nodes) = ordered_trie(&items);
    let mut oracle = CachingOracle::new(Some(nodes.into_iter().map(entry).collect()), Offline);
    assert_eq!(ordered_list(&mut oracle, &root.0), Ok(items));

    let (empty_root, nodes) = ordered_trie(&[]);
    let mut oracle = CachingOracle::new(Some(nodes.into_iter().map(entry).collect()), Offline);
    assert_eq!(ordered_list(&mut oracle, &empty_root.0), Ok(vec![]));
}

#[test]
fn ordered_list_keeps_short_items_that_stand_in_their_parent() {
    let items: Vec<Vec<u8>> = (1..=3u8).map(|n| vec![n; 2]).collect();
    let (root, nodes) = ordered_trie(&items);
    let mut oracle = CachingOracle::new(Some(nodes.into_iter().map(entry).collect()), Offline);
    assert_eq!(ordered_list(&mut oracle, &root.0), Ok(items));
}

#[test]
fn ordered_list_refuses_malformed_nodes() {
    for node in [vec![0xc0], vec![0x01], vec![0xc3, 0x01, 0x02, 0x03], b"junk".to_vec()] {
        let root = keccak(&node);
        let mut oracle = CachingOracle::new(Some(vec![entry(node)]), Offline);
        assert_eq!(ordered_list(&mut oracle, &root.0), Err(TrieError::Malformed));
    }
    // A node of two items whose path starts with a nibble of no kind.
    let node = vec![0xc2, 0x40, 0x01];
    let root = keccak(&node);
    let mut oracle = CachingOracle::new(Some(vec![entry(node)]), Offline);
    assert_eq!(ordered_list(&mut oracle, &root.0), Err(TrieError::Malformed));
    let mut oracle = CachingOracle::new(None, Offline);
    assert_eq!(
        ordered_list(&mut oracle, &[1; 32]),
        Err(TrieError::Oracle(OracleError::OracleIO))
    );
}

#[test]
fn ordered_list_stops_at_the_deepest_level() {
    // Extensions that lead to one another, 70 deep, with a leaf at the end.
    let mut node = vec![0xc4, 0x20, 0x82, 0x01, 0x02];
    let mut entries = vec![entry(node.clone())];
    for _ in 0..70 {
        let mut next = vec![0xe2, 0x00, 0xa0];
        next.extend_from_slice(&alloy_primitives::keccak256(&node).0);
        node = next;
        entries.push(entry(node.clone()));
    }
    let root = keccak(&node);
    let mut oracle = CachingOracle::new(Some(entries.clone()), Offline);
    assert_eq!(ordered_list(&mut oracle, &root.0), Err(TrieError::TooDeep));
    let shallow = keccak(&entries[10].1);
    assert_eq!(ordered_list(&mut oracle, &shallow.0), Ok(vec![vec![0x01, 0x02]]));
}

#[test]
fn block_search_leaves_a_whole_cache_as_it_is() {
    // With every header in the cache, the reader is never asked: a reader
    // that lies would be found out by a result other than these.
    let headers = chain(100, 103);
    let head = keccak(&headers[3]);
    let entries: Entries = headers.iter().cloned().map(entry).collect();
    let oracle = CachingOracle::new(Some(entries), Liar(b"junk".to_vec()));
    let mut provider = OracleL1ChainProvider::new(head, oracle, NoHints);
    assert_eq!(provider.block_info_by_number(104), Err(ProviderError::NotFound));
    assert_eq!(provider.block_info_by_number(103).map(|info| info.hash), Ok(head));
    assert_eq!(
        provider.block_info_by_number(100).map(|info| info.hash),
        Ok(keccak(&headers[0]))
    );
    // Below the chain that the cache holds, the outcome lies with the reader.
    assert_eq!(
        provider.block_info_by_number(99),
        Err(ProviderError::Oracle(OracleError::KeyMismatch))
    );
}
