use kona_client::boot::{
    BootInfo, L1_END_NUMBER_KEY, L1_HEAD_KEY, L2_CHAIN_ID_KEY, L2_CLAIM_BLOCK_NUMBER_KEY, L2_CLAIM_KEY,
    L2_OUTPUT_ROOT_KEY, L2_ROLLUP_CONFIG_KEY,
};
use kona_client::header::{Header, Sealed};
use kona_client::key::PreimageKey;
use kona_client::l1_provider::{NoHints, OracleL1ChainProvider};
use kona_client::oracle::{CachingOracle, Offline};
use kona_client::primitives::{
    BlockInfo, L2AttributesWithParent, L2BlockInfo, L2PayloadAttributes, Receipt, TxEnvelope, B256,
};
use kona_client::l1_provider::ProviderError;
use kona_client::oracle::OracleError;
use kona_client::scenario::{
    check_l1_connectivity, close_walk, link_parent, output_root, start_walk, ConnectivityError,
    Derivation, Execution, Scenario, ScenarioError,
};
use kona_client::test_utils::{NotFound, TestChainProvider};
use kona_client::traits::ChainProvider;

const CONFIG: &str = r#"{"l2_chain_id": 10, "block_time": 2, "seq_window_size": 3600,
    "channel_timeout": 300, "max_sequencer_drift": 600}"#;

fn header(parent: B256, number: u64, state_root: [u8; 32]) -> Header {
    let header = alloy_consensus::Header {
        parent_hash: alloy_primitives::B256::from(parent.0),
        number,
        timestamp: number * 2,
        state_root: alloy_primitives::B256::from(state_root),
        ..Default::default()
    };
    Header::decode(alloy_rlp::encode(&header)).unwrap()
}

/// Headers with the numbers `from..=to`, each the child of the one before.
fn chain(from: u64, to: u64) -> Vec<Header> {
    let mut headers: Vec<Header> = Vec::new();
    let mut parent = B256([0xab; 32]);
    for number in from..=to {
        let next = header(parent, number, [0; 32]);
        parent = next.hash_slow();
        headers.push(next);
    }
    headers
}

fn provider_of(headers: &[Header]) -> TestChainProvider {
    let mut provider = TestChainProvider::default();
    for h in headers {
        let hash = h.hash_slow();
        provider.insert_header(hash, h.clone());
        provider.insert_block(h.number(), h.block_info(hash));
    }
    provider
}

/// A provider that notes the number of every header that it hands out.
struct Recording {
    inner: TestChainProvider,
    read: Vec<u64>,
}

impl ChainProvider for Recording {
    type Error = NotFound;

    fn header_by_hash(&mut self, hash: B256) -> Result<Header, NotFound> {
        let header = self.inner.header_by_hash(hash)?;
        self.read.push(header.number());
        Ok(header)
    }

    fn block_info_by_number(&mut self, number: u64) -> Result<BlockInfo, NotFound> {
        self.inner.block_info_by_number(number)
    }

    fn receipts_by_hash(&mut self, hash: B256) -> Result<Vec<Receipt>, NotFound> {
        self.inner.receipts_by_hash(hash)
    }

    fn block_info_and_transactions_by_hash(
        &mut self,
        hash: B256,
    ) -> Result<(BlockInfo, Vec<TxEnvelope>), NotFound> {
        self.inner.block_info_and_transactions_by_hash(hash)
    }
}

#[test]
fn l1_connectivity_walk_returns_the_end_hash() {
    let headers = chain(98, 107);
    let mut provider = Recording { inner: provider_of(&headers), read: Vec::new() };
    let origin = &headers[2];
    let end = &headers[7];
    assert_eq!(origin.number(), 100);
    assert_eq!(end.number(), 105);
    let result = check_l1_connectivity(&mut provider, origin.hash_slow(), 100, 105);
    assert_eq!(result, Ok(end.hash_slow()));
    assert_eq!(provider.read, vec![105, 104, 103, 102, 101, 100]);
}

#[test]
fn l1_connectivity_of_a_single_block() {
    let headers = chain(100, 100);
    let mut provider = provider_of(&headers);
    let hash = headers[0].hash_slow();
    assert_eq!(check_l1_connectivity(&mut provider, hash, 100, 100), Ok(hash));
}

#[test]
fn l1_connectivity_refuses_a_bad_range() {
    let headers = chain(0, 5);
    let mut provider = provider_of(&headers);
    let hash = headers[0].hash_slow();
    assert_eq!(
        check_l1_connectivity(&mut provider, hash, 5, 4),
        Err(ConnectivityError::InvalidRange)
    );
    assert_eq!(
        check_l1_connectivity(&mut provider, hash, u64::MAX, 1),
        Err(ConnectivityError::InvalidRange)
    );
}

#[test]
fn l1_connectivity_refuses_another_origin() {
    let headers = chain(100, 105);
    let mut provider = provider_of(&headers);
    assert_eq!(
        check_l1_connectivity(&mut provider, B256([1; 32]), 100, 105),
        Err(ConnectivityError::OriginMismatch)
    );
    assert_eq!(
        check_l1_connectivity(&mut provider, headers[1].hash_slow(), 100, 104),
        Err(ConnectivityError::OriginMismatch)
    );
    // The right hash under a wrong number is no origin either.
    assert_eq!(
        check_l1_connectivity(&mut provider, headers[1].hash_slow(), 102, 106 - 1 - 2),
        Err(ConnectivityError::OriginMismatch)
    );
}

#[test]
fn l1_connectivity_reports_missing_data() {
    let headers = chain(100, 105);
    let mut provider = provider_of(&headers[2..]);
    assert_eq!(
        check_l1_connectivity(&mut provider, headers[0].hash_slow(), 100, 105),
        Err(ConnectivityError::Provider(NotFound::Header))
    );
    assert_eq!(
        check_l1_connectivity(&mut provider, headers[0].hash_slow(), 100, 106),
        Err(ConnectivityError::Provider(NotFound::Block))
    );
}

/// A provider that answers every request for a header with the same header.
struct Stubborn {
    header: Header,
}

impl ChainProvider for Stubborn {
    type Error = NotFound;

    fn header_by_hash(&mut self, _hash: B256) -> Result<Header, NotFound> {
        Ok(self.header.clone())
    }

    fn block_info_by_number(&mut self, _number: u64) -> Result<BlockInfo, NotFound> {
        Ok(self.header.block_info(self.header.hash_slow()))
    }

    fn receipts_by_hash(&mut self, _hash: B256) -> Result<Vec<Receipt>, NotFound> {
        Err(NotFound::Receipts)
    }

    fn block_info_and_transactions_by_hash(
        &mut self,
        _hash: B256,
    ) -> Result<(BlockInfo, Vec<TxEnvelope>), NotFound> {
        Err(NotFound::Block)
    }
}

#[test]
fn l1_connectivity_detects_a_broken_link() {
    let headers = chain(100, 101);
    let mut provider = Stubborn { header: headers[1].clone() };
    assert_eq!(
        check_l1_connectivity(&mut provider, headers[0].hash_slow(), 100, 101),
        Err(ConnectivityError::BrokenLink)
    );
}

#[test]
fn output_root_is_keccak_of_version_roots_and_hash() {
    let state_root = B256([0x11; 32]);
    let storage_root = B256([0x22; 32]);
    let block_hash = B256([0x33; 32]);
    let mut preimage = vec![0u8; 32];
    preimage.extend_from_slice(&[0x11; 32]);
    preimage.extend_from_slice(&[0x22; 32]);
    preimage.extend_from_slice(&[0x33; 32]);
    assert_eq!(preimage.len(), 128);
    let expected = alloy_primitives::keccak256(&preimage);
    let root = output_root(&state_root, &storage_root, &block_hash);
    assert_eq!(root, B256(expected.0));
    assert_ne!(root, output_root(&storage_root, &state_root, &block_hash));
    assert_eq!(alloy_primitives::hex::encode(root.0), "d50bf2ff34ced71be0d2f0be7c2433c6b39d9c3b16c95daf1ed6f24b7578a3b2");
}

struct Setup {
    scenario: Scenario<OracleL1ChainProvider<Offline, NoHints>>,
    l1: Vec<Header>,
    safe_head: Sealed,
    child: Header,
    storage_root: B256,
}

fn boot_slots(head: B256, claim: B256, claim_block: u64, end: u64) -> Vec<(PreimageKey, Vec<u8>)> {
    vec![
        (PreimageKey::new_local(L1_HEAD_KEY), head.0.to_vec()),
        (PreimageKey::new_local(L2_OUTPUT_ROOT_KEY), vec![0x22; 32]),
        (PreimageKey::new_local(L2_CLAIM_KEY), claim.0.to_vec()),
        (PreimageKey::new_local(L2_CLAIM_BLOCK_NUMBER_KEY), claim_block.to_be_bytes().to_vec()),
        (PreimageKey::new_local(L2_CHAIN_ID_KEY), 10u64.to_be_bytes().to_vec()),
        (PreimageKey::new_local(L2_ROLLUP_CONFIG_KEY), CONFIG.as_bytes().to_vec()),
        (PreimageKey::new_local(L1_END_NUMBER_KEY), end.to_be_bytes().to_vec()),
    ]
}

fn setup(claim: Option<B256>, end: u64) -> Setup {
    setup_for(claim, 41, end)
}

/// A scenario over an oracle that holds the boot inputs and the layer 1
/// headers 100 to 105, and nothing else.
fn setup_for(claim: Option<B256>, claim_block: u64, end: u64) -> Setup {
    let l1 = chain(100, 105);
    let safe_head = header(B256([0x5a; 32]), 40, [0x01; 32]).seal_slow();
    let child = header(safe_head.hash(), 41, [0x02; 32]);
    let storage_root = B256([0x03; 32]);
    let expected = output_root(&child.state_root(), &storage_root, &child.hash_slow());
    let mut entries = boot_slots(l1[5].hash_slow(), claim.unwrap_or(expected), claim_block, end);
    for h in &l1 {
        entries.push((PreimageKey::new_keccak256(h.hash_slow().0), h.encoded().clone()));
    }
    let scenario = Scenario::new(Some(entries), Offline, NoHints).unwrap();
    Setup { scenario, l1, safe_head, child, storage_root }
}

fn parent_of(safe_head: &Sealed) -> L2BlockInfo {
    L2BlockInfo {
        block_info: safe_head.inner().block_info(safe_head.hash()),
        ..Default::default()
    }
}

fn derivation(setup: &Setup, batch_block: usize) -> Derivation {
    let origin = &setup.l1[0];
    let batch = &setup.l1[batch_block];
    Derivation {
        l1_origin_block: origin.block_info(origin.hash_slow()),
        l1_origin_header: origin.clone(),
        payload: L2AttributesWithParent {
            attributes: L2PayloadAttributes {
                parent_hash: setup.safe_head.hash(),
                timestamp: 82,
                transactions: vec![vec![0x7e, 0x01]],
                no_tx_pool: true,
                ..Default::default()
            },
            parent: parent_of(&setup.safe_head),
            is_disputed: true,
        },
        l1_batch_block: batch.block_info(batch.hash_slow()),
        l2_safe_head_header: setup.safe_head.clone(),
    }
}

#[test]
fn happy_path_single_deposit_only_block() {
    let mut setup = setup(None, 105);
    assert_eq!(setup.scenario.boot.l2_claim_block, 41);
    assert_eq!(setup.scenario.boot.l1_end_number, 105);

    let derived = derivation(&setup, 2);
    let (attributes, safe_head, origin) = setup.scenario.derive(derived).unwrap();
    assert_eq!(attributes.transactions, vec![vec![0x7e, 0x01]]);
    assert_eq!(safe_head, setup.safe_head);
    assert_eq!(origin.number, 100);

    let end = setup.scenario.boot.l1_end_number;
    let end_hash = setup.scenario.check_l1_connectivity(origin.hash, origin.number, end).unwrap();
    assert_eq!(end_hash, setup.l1[5].hash_slow());

    let execution =
        Execution { header: setup.child.clone(), withdrawals_storage_root: setup.storage_root };
    let number = setup.scenario.execute_block(attributes, safe_head, execution).unwrap();
    assert_eq!(number, 41);

    let root = setup.scenario.compute_output_root().unwrap();
    assert_eq!(root, setup.scenario.boot.l2_claim);
    assert_eq!(setup.scenario.check_claim(number, root), Ok(()));
}

#[test]
fn claim_mismatch_is_fatal() {
    let claimed = B256([0x99; 32]);
    let mut setup = setup(Some(claimed), 105);
    let derived = derivation(&setup, 2);
    let (attributes, safe_head, _) = setup.scenario.derive(derived).unwrap();
    let execution =
        Execution { header: setup.child.clone(), withdrawals_storage_root: setup.storage_root };
    let number = setup.scenario.execute_block(attributes, safe_head, execution).unwrap();
    let root = setup.scenario.compute_output_root().unwrap();
    assert_ne!(root, claimed);
    assert_eq!(
        setup.scenario.check_claim(number, root),
        Err(ScenarioError::ClaimMismatch { claimed, computed: root })
    );
}

#[test]
fn claim_for_another_block_number_is_fatal() {
    let setup = setup(None, 105);
    let claim = setup.scenario.boot.l2_claim;
    assert_eq!(
        setup.scenario.check_claim(42, claim),
        Err(ScenarioError::BlockNumberMismatch { claimed_number: 41, executed_number: 42 })
    );
}

#[test]
fn derive_holds_the_batch_block_against_the_l1_end() {
    let mut bounded = setup(None, 103);
    let inside = derivation(&bounded, 3);
    assert!(bounded.scenario.derive(inside).is_ok());
    let outside = derivation(&bounded, 4);
    assert_eq!(
        bounded.scenario.derive(outside).map(|_| ()),
        Err(ScenarioError::L1BoundExceeded { l1_end_number: 103, l1_batch_number: 104 })
    );
}

#[test]
fn derive_with_end_zero_has_no_bound() {
    let mut unbounded = setup(None, 0);
    let derived = derivation(&unbounded, 5);
    assert!(unbounded.scenario.derive(derived).is_ok());
}

#[test]
fn output_root_comes_after_an_execution() {
    let mut setup = setup(None, 105);
    assert!(!setup.scenario.has_executed());
    let attributes = derivation(&setup, 2).payload.attributes;
    let execution =
        Execution { header: setup.child.clone(), withdrawals_storage_root: setup.storage_root };
    assert_eq!(setup.scenario.execute_block(attributes, setup.safe_head.clone(), execution), Ok(41));
    assert!(setup.scenario.has_executed());
    let expected =
        output_root(&setup.child.state_root(), &setup.storage_root, &setup.child.hash_slow());
    assert_eq!(setup.scenario.compute_output_root(), Ok(expected));
    // The root is that of the block that was executed, however often it is asked for.
    assert_eq!(setup.scenario.compute_output_root(), Ok(expected));
}

#[test]
fn execution_must_follow_the_safe_head() {
    let mut setup = setup(None, 105);
    let attributes = derivation(&setup, 2).payload.attributes;

    let stranger = header(B256([0x77; 32]), 41, [0x02; 32]);
    let execution = Execution { header: stranger, withdrawals_storage_root: setup.storage_root };
    assert_eq!(
        setup.scenario.execute_block(attributes.clone(), setup.safe_head.clone(), execution),
        Err(ScenarioError::ExecutionMismatch)
    );

    let skipped = header(setup.safe_head.hash(), 42, [0x02; 32]);
    let execution = Execution { header: skipped, withdrawals_storage_root: setup.storage_root };
    assert_eq!(
        setup.scenario.execute_block(attributes.clone(), setup.safe_head.clone(), execution),
        Err(ScenarioError::ExecutionMismatch)
    );

    let mut elsewhere = attributes.clone();
    elsewhere.parent_hash = B256([0x01; 32]);
    let execution =
        Execution { header: setup.child.clone(), withdrawals_storage_root: setup.storage_root };
    assert_eq!(
        setup.scenario.execute_block(elsewhere, setup.safe_head.clone(), execution),
        Err(ScenarioError::ExecutionMismatch)
    );
    assert!(!setup.scenario.has_executed());
}

#[test]
fn scenario_needs_the_boot_inputs() {
    let slots = boot_slots(B256([1; 32]), B256([2; 32]), 1, 1);
    for missing in 0..7 {
        let mut entries = slots.clone();
        entries.remove(missing);
        let result = Scenario::new(Some(entries), Offline, NoHints);
        assert_eq!(result.err().map(|e| e.slot), Some(missing as u64 + 1));
    }
    assert!(Scenario::new(None, Offline, NoHints).is_err());
}

#[test]
fn happy_path_over_the_oracle() {
    let l1 = chain(100, 105);
    let safe_head = header(B256([0x5a; 32]), 40, [0x01; 32]).seal_slow();
    let child = header(safe_head.hash(), 41, [0x02; 32]);
    let storage_root = B256([0x03; 32]);
    let claim = output_root(&child.state_root(), &storage_root, &child.hash_slow());
    let mut entries = boot_slots(l1[5].hash_slow(), claim, 41, 105);
    for h in &l1 {
        entries.push((PreimageKey::new_keccak256(h.hash_slow().0), h.encoded().clone()));
    }
    let mut scenario: Scenario<OracleL1ChainProvider<Offline, NoHints>> =
        Scenario::new(Some(entries), Offline, NoHints).unwrap();
    let boot = scenario.boot;
    assert_eq!(boot.l1_head, l1[5].hash_slow());

    let origin = l1[0].block_info(l1[0].hash_slow());
    let batch = l1[2].block_info(l1[2].hash_slow());
    let derived = Derivation {
        l1_origin_block: origin,
        l1_origin_header: l1[0].clone(),
        payload: L2AttributesWithParent {
            attributes: L2PayloadAttributes {
                parent_hash: safe_head.hash(),
                timestamp: 82,
                transactions: vec![vec![0x7e, 0x01]],
                no_tx_pool: true,
                ..Default::default()
            },
            parent: parent_of(&safe_head),
            is_disputed: true,
        },
        l1_batch_block: batch,
        l2_safe_head_header: safe_head.clone(),
    };
    let (attributes, safe_head, origin) = scenario.derive(derived).unwrap();
    let end_hash =
        scenario.check_l1_connectivity(origin.hash, origin.number, boot.l1_end_number).unwrap();
    assert_eq!(end_hash, boot.l1_head);
    let execution = Execution { header: child, withdrawals_storage_root: storage_root };
    let number = scenario.execute_block(attributes, safe_head, execution).unwrap();
    assert_eq!(number, boot.l2_claim_block);
    let root = scenario.compute_output_root().unwrap();
    assert_eq!(scenario.check_claim(number, root), Ok(()));
}

#[test]
fn scenario_over_a_given_provider() {
    let l1 = chain(100, 105);
    let slots = boot_slots(l1[5].hash_slow(), B256([7; 32]), 41, 105);
    let boot = BootInfo::load(&mut CachingOracle::new(Some(slots), Offline)).unwrap();
    let mut scenario: Scenario<TestChainProvider> = Scenario::with_provider(boot, provider_of(&l1));
    assert_eq!(scenario.boot, boot);
    assert_eq!(scenario.boot_inputs(), boot);
    assert!(!scenario.has_executed());
    assert_eq!(
        scenario.check_claim(41, B256([8; 32])),
        Err(ScenarioError::ClaimMismatch { claimed: B256([7; 32]), computed: B256([8; 32]) })
    );
    assert_eq!(scenario.check_claim(41, B256([7; 32])), Ok(()));
}

#[test]
fn derive_refuses_a_safe_head_that_is_not_before_the_disputed_block() {
    // The safe head has the number 40.
    let mut ahead = setup_for(None, 42, 105);
    let derived = derivation(&ahead, 2);
    assert_eq!(
        ahead.scenario.derive(derived).map(|_| ()),
        Err(ScenarioError::SafeHeadMismatch { claimed_number: 42, safe_head_number: 40 })
    );
    let mut same = setup_for(None, 40, 105);
    let derived = derivation(&same, 2);
    assert_eq!(
        same.scenario.derive(derived).map(|_| ()),
        Err(ScenarioError::SafeHeadMismatch { claimed_number: 40, safe_head_number: 40 })
    );
    let mut first = setup_for(None, 0, 105);
    let derived = derivation(&first, 2);
    assert_eq!(
        first.scenario.derive(derived).map(|_| ()),
        Err(ScenarioError::SafeHeadMismatch { claimed_number: 0, safe_head_number: 40 })
    );
}

#[test]
fn derive_refuses_a_payload_that_does_not_follow_the_safe_head() {
    let mut setup = setup(None, 105);
    let mut elsewhere = derivation(&setup, 2);
    elsewhere.payload.parent.block_info.hash = B256([0x5b; 32]);
    assert_eq!(setup.scenario.derive(elsewhere).map(|_| ()), Err(ScenarioError::PayloadMismatch));
    let mut lower = derivation(&setup, 2);
    lower.payload.parent.block_info.number = 39;
    assert_eq!(setup.scenario.derive(lower).map(|_| ()), Err(ScenarioError::PayloadMismatch));
    let mut unnamed = derivation(&setup, 2);
    unnamed.payload.parent = L2BlockInfo::default();
    assert_eq!(setup.scenario.derive(unnamed).map(|_| ()), Err(ScenarioError::PayloadMismatch));
}

#[test]
fn derive_checks_the_l1_bound_first() {
    let mut setup = setup_for(None, 42, 103);
    let mut derived = derivation(&setup, 4);
    derived.payload.parent = L2BlockInfo::default();
    assert_eq!(
        setup.scenario.derive(derived).map(|_| ()),
        Err(ScenarioError::L1BoundExceeded { l1_end_number: 103, l1_batch_number: 104 })
    );
}

#[test]
fn derive_hands_back_what_was_derived() {
    let mut setup = setup(None, 105);
    let derived = derivation(&setup, 2);
    let expected = derived.payload.attributes.clone();
    let (attributes, safe_head, origin) = setup.scenario.derive(derived).unwrap();
    assert_eq!(attributes, expected);
    assert_eq!(safe_head, setup.safe_head);
    assert_eq!(origin, setup.l1[0].block_info(setup.l1[0].hash_slow()));
}

/// A provider that names the block at the end by another hash than that of
/// the header that it hands out for it.
struct Misnamed {
    inner: TestChainProvider,
    named: B256,
    end: Header,
}

impl ChainProvider for Misnamed {
    type Error = NotFound;

    fn header_by_hash(&mut self, hash: B256) -> Result<Header, NotFound> {
        if hash == self.named {
            Ok(self.end.clone())
        } else {
            self.inner.header_by_hash(hash)
        }
    }

    fn block_info_by_number(&mut self, _number: u64) -> Result<BlockInfo, NotFound> {
        Ok(self.end.block_info(self.named))
    }

    fn receipts_by_hash(&mut self, hash: B256) -> Result<Vec<Receipt>, NotFound> {
        self.inner.receipts_by_hash(hash)
    }

    fn block_info_and_transactions_by_hash(
        &mut self,
        hash: B256,
    ) -> Result<(BlockInfo, Vec<TxEnvelope>), NotFound> {
        self.inner.block_info_and_transactions_by_hash(hash)
    }
}

#[test]
fn l1_connectivity_holds_the_end_header_against_its_hash() {
    let headers = chain(100, 105);
    let named = B256([0x09; 32]);
    let mut provider =
        Misnamed { inner: provider_of(&headers), named, end: headers[5].clone() };
    assert_eq!(
        check_l1_connectivity(&mut provider, headers[0].hash_slow(), 100, 105),
        Err(ConnectivityError::BrokenLink)
    );
    assert_eq!(
        check_l1_connectivity(&mut provider, headers[5].hash_slow(), 105, 105),
        Err(ConnectivityError::BrokenLink)
    );
    assert_eq!(
        check_l1_connectivity(&mut provider, named, 105, 105),
        Err(ConnectivityError::BrokenLink)
    );
    // Under the hash of its header the same block ends the same chain.
    let mut honest = Misnamed {
        inner: provider_of(&headers),
        named: headers[5].hash_slow(),
        end: headers[5].clone(),
    };
    assert_eq!(
        check_l1_connectivity(&mut honest, headers[0].hash_slow(), 100, 105),
        Ok(headers[5].hash_slow())
    );
}

#[test]
fn walk_starts_at_the_header_with_the_hash_of_the_end() {
    let headers = chain(100, 101);
    let end = headers[1].block_info(headers[1].hash_slow());
    assert_eq!(start_walk::<NotFound>(&end, headers[1].clone()), Ok(headers[1].clone()));
    assert_eq!(
        start_walk::<NotFound>(&end, headers[0].clone()),
        Err(ConnectivityError::BrokenLink)
    );
}

#[test]
fn walk_goes_on_with_the_parent_only() {
    let headers = chain(100, 102);
    assert_eq!(link_parent::<NotFound>(&headers[1], headers[0].clone()), Ok(headers[0].clone()));
    assert_eq!(
        link_parent::<NotFound>(&headers[1], headers[2].clone()),
        Err(ConnectivityError::BrokenLink)
    );
    assert_eq!(
        link_parent::<NotFound>(&headers[1], headers[1].clone()),
        Err(ConnectivityError::BrokenLink)
    );
}

#[test]
fn walk_ends_at_the_origin_only() {
    let headers = chain(100, 101);
    let last = &headers[0];
    let hash = last.hash_slow();
    let end = headers[1].hash_slow();
    assert_eq!(close_walk::<NotFound>(last, hash, hash, 100, end), Ok(end));
    assert_eq!(
        close_walk::<NotFound>(last, hash, end, 100, end),
        Err(ConnectivityError::OriginMismatch)
    );
    assert_eq!(
        close_walk::<NotFound>(last, hash, hash, 101, end),
        Err(ConnectivityError::OriginMismatch)
    );
}

#[test]
fn scenario_walks_the_range_that_the_oracle_holds() {
    let mut setup = setup(None, 105);
    let origin = setup.l1[0].hash_slow();
    assert_eq!(setup.scenario.check_l1_connectivity(origin, 100, 105), Ok(setup.l1[5].hash_slow()));
    // Again, and on a part of the range: the oracle is as it was.
    assert_eq!(setup.scenario.check_l1_connectivity(origin, 100, 105), Ok(setup.l1[5].hash_slow()));
    assert_eq!(
        setup.scenario.check_l1_connectivity(setup.l1[2].hash_slow(), 102, 104),
        Ok(setup.l1[4].hash_slow())
    );
    assert_eq!(
        setup.scenario.check_l1_connectivity(setup.l1[5].hash_slow(), 105, 105),
        Ok(setup.l1[5].hash_slow())
    );
}

#[test]
fn scenario_walk_reports_what_the_oracle_lacks() {
    let mut setup = setup(None, 105);
    let origin = setup.l1[0].hash_slow();
    // The header 99 is not held, and the reader has nothing.
    assert_eq!(
        setup.scenario.check_l1_connectivity(origin, 99, 105),
        Err(ConnectivityError::Provider(ProviderError::Oracle(OracleError::OracleIO)))
    );
    // A block above the head is not on the chain.
    assert_eq!(
        setup.scenario.check_l1_connectivity(origin, 100, 106),
        Err(ConnectivityError::Provider(ProviderError::NotFound))
    );
    assert_eq!(
        setup.scenario.check_l1_connectivity(origin, 101, 100),
        Err(ConnectivityError::InvalidRange)
    );
    assert_eq!(
        setup.scenario.check_l1_connectivity(setup.l1[1].hash_slow(), 100, 105),
        Err(ConnectivityError::OriginMismatch)
    );
}

#[test]
fn derive_binds_the_origin_to_its_header() {
    let mut setup = setup(None, 105);
    let derived = derivation(&setup, 2);
    let (_, safe_head, origin) = setup.scenario.derive(derived).unwrap();
    assert_eq!(origin.hash, setup.l1[0].hash_slow());
    assert_eq!(origin.number, setup.l1[0].number());
    assert_eq!(safe_head.hash(), safe_head.inner().hash_slow());

    // Another header than that of the origin.
    let mut other = derivation(&setup, 2);
    other.l1_origin_header = setup.l1[1].clone();
    assert_eq!(setup.scenario.derive(other).map(|_| ()), Err(ScenarioError::OriginMismatch));
    // A hash that is not that of the header.
    let mut renamed = derivation(&setup, 2);
    renamed.l1_origin_block.hash = B256([0x42; 32]);
    assert_eq!(setup.scenario.derive(renamed).map(|_| ()), Err(ScenarioError::OriginMismatch));
    // A number, a parent or a time that the header does not have.
    let mut moved = derivation(&setup, 2);
    moved.l1_origin_block.number = 101;
    assert_eq!(setup.scenario.derive(moved).map(|_| ()), Err(ScenarioError::OriginMismatch));
    let mut adopted = derivation(&setup, 2);
    adopted.l1_origin_block.parent_hash = B256([0x43; 32]);
    assert_eq!(setup.scenario.derive(adopted).map(|_| ()), Err(ScenarioError::OriginMismatch));
    let mut late = derivation(&setup, 2);
    late.l1_origin_block.timestamp += 1;
    assert_eq!(setup.scenario.derive(late).map(|_| ()), Err(ScenarioError::OriginMismatch));
}
