use kona_client::errors::{BlobProviderError, PipelineError, PipelineErrorKind};
use kona_client::header::Header;
use kona_client::primitives::{
    Address, Blob, BlockInfo, BlockNumHash, IndexedBlobHash, L2BlockInfo, Log, OpBlock, Receipt,
    RollupConfig, SystemConfig, TxEnvelope, B256,
};
use kona_client::test_utils::{
    MockFrameQueueProvider, NotFound, TestBlobProvider, TestChainProvider,
    TestDAP, TestIter, TestL2ChainProvider,
};
use kona_client::traits::{
    BlobProvider, ChainProvider, DataAvailabilityProvider, DataIterator, FrameQueueProvider,
    L2ChainProvider, OriginAdvancer, OriginProvider, ResettableStage,
};

fn header(parent: [u8; 32], number: u64) -> Header {
    let header = alloy_consensus::Header {
        parent_hash: alloy_primitives::B256::from(parent),
        number,
        ..Default::default()
    };
    Header::decode(alloy_rlp::encode(&header)).unwrap()
}

fn block(hash: u8, number: u64) -> BlockInfo {
    BlockInfo { hash: B256([hash; 32]), number, parent_hash: B256([hash - 1; 32]), timestamp: number * 12 }
}

fn tx(byte: u8) -> TxEnvelope {
    TxEnvelope { encoded: vec![byte, byte, byte] }
}

fn receipt(gas: u64) -> Receipt {
    Receipt {
        status: true,
        cumulative_gas_used: gas,
        logs: vec![Log {
            address: Address([9; 20]),
            topics: vec![B256([1; 32]), B256([2; 32])],
            data: vec![1, 2, 3],
        }],
    }
}

#[test]
fn not_found_messages() {
    assert_eq!(NotFound::Header.message(), "Header not found");
    assert_eq!(NotFound::Block.message(), "Block not found");
    assert_eq!(NotFound::Receipts.message(), "Receipts not found");
    assert_eq!(NotFound::L2Block.message(), "L2 Block not found");
    assert_eq!(NotFound::SystemConfig.message(), "System config not found");
}

#[test]
fn pipeline_error_kinds() {
    assert_eq!(PipelineError::Eof.temp(), PipelineErrorKind::Temporary(PipelineError::Eof));
    assert_eq!(
        PipelineError::NotEnoughData.crit(),
        PipelineErrorKind::Critical(PipelineError::NotEnoughData)
    );
}

#[test]
fn header_is_found_by_its_own_hash() {
    let mut provider = TestChainProvider::default();
    let first = header([1; 32], 10);
    let second = header([2; 32], 11);
    // The key that a header is put in under plays no part.
    provider.insert_header(B256([0; 32]), first.clone());
    provider.insert_header(second.hash_slow(), second.clone());
    assert_eq!(provider.header_by_hash(first.hash_slow()), Ok(first));
    assert_eq!(provider.header_by_hash(second.hash_slow()), Ok(second));
    assert_eq!(provider.header_by_hash(B256([0; 32])), Err(NotFound::Header));
    provider.clear_headers();
    assert!(provider.headers.is_empty());
}

#[test]
fn block_is_found_by_the_number_it_was_put_under() {
    let mut provider = TestChainProvider::default();
    provider.insert_block(5, block(50, 500));
    provider.insert_block(6, block(60, 6));
    provider.insert_block(5, block(70, 5));
    assert_eq!(provider.block_info_by_number(5), Ok(block(50, 500)));
    assert_eq!(provider.block_info_by_number(6), Ok(block(60, 6)));
    assert_eq!(provider.block_info_by_number(500), Err(NotFound::Block));
    provider.clear_blocks();
    assert_eq!(provider.block_info_by_number(5), Err(NotFound::Block));
}

#[test]
fn receipts_are_found_by_hash() {
    let mut provider = TestChainProvider::default();
    provider.insert_receipts(B256([1; 32]), vec![receipt(10), receipt(20)]);
    provider.insert_receipts(B256([2; 32]), vec![]);
    provider.insert_receipts(B256([1; 32]), vec![receipt(30)]);
    assert_eq!(provider.receipts_by_hash(B256([1; 32])), Ok(vec![receipt(10), receipt(20)]));
    assert_eq!(provider.receipts_by_hash(B256([2; 32])), Ok(vec![]));
    assert_eq!(provider.receipts_by_hash(B256([3; 32])), Err(NotFound::Receipts));
    provider.clear_receipts();
    assert_eq!(provider.receipts_by_hash(B256([1; 32])), Err(NotFound::Receipts));
}

#[test]
fn block_and_transactions_are_found_by_hash() {
    let mut provider = TestChainProvider::default();
    provider.insert_block_with_transactions(1, block(10, 1), vec![tx(1), tx(2)]);
    provider.insert_block(2, block(20, 2));
    assert_eq!(
        provider.block_info_and_transactions_by_hash(B256([10; 32])),
        Ok((block(10, 1), vec![tx(1), tx(2)]))
    );
    assert_eq!(
        provider.block_info_and_transactions_by_hash(B256([20; 32])),
        Ok((block(20, 2), vec![]))
    );
    assert_eq!(
        provider.block_info_and_transactions_by_hash(B256([30; 32])),
        Err(NotFound::Block)
    );
}

#[test]
fn clear_keeps_the_transactions() {
    let mut provider = TestChainProvider::default();
    provider.insert_block_with_transactions(1, block(10, 1), vec![tx(1)]);
    provider.insert_header(B256([0; 32]), header([1; 32], 1));
    provider.insert_receipts(B256([1; 32]), vec![receipt(1)]);
    provider.clear();
    assert!(provider.blocks.is_empty());
    assert!(provider.headers.is_empty());
    assert!(provider.receipts.is_empty());
    assert_eq!(provider.transactions, vec![(B256([10; 32]), vec![tx(1)])]);
}

#[test]
fn blobs_come_in_request_order_and_gaps_are_passed_over() {
    let mut provider = TestBlobProvider::default();
    let a = Blob { bytes: vec![0xaa; 8] };
    let b = Blob { bytes: vec![0xbb; 8] };
    provider.insert_blob(B256([1; 32]), a.clone());
    provider.insert_blob(B256([2; 32]), b.clone());
    let wanted = [
        IndexedBlobHash { index: 0, hash: B256([2; 32]) },
        IndexedBlobHash { index: 1, hash: B256([9; 32]) },
        IndexedBlobHash { index: 2, hash: B256([1; 32]) },
        IndexedBlobHash { index: 3, hash: B256([2; 32]) },
    ];
    let found: Result<Vec<Blob>, BlobProviderError> = provider.get_blobs(&block(1, 1), &wanted);
    assert_eq!(found, Ok(vec![b.clone(), a, b.clone()]));
    assert_eq!(provider.get_blobs(&block(1, 1), &[]), Ok(vec![]));

    let c = Blob { bytes: vec![0xcc; 4] };
    provider.insert_blob(B256([2; 32]), c.clone());
    assert_eq!(provider.get_blobs(&block(1, 1), &wanted[..1]), Ok(vec![c]));
    provider.clear();
    assert_eq!(provider.get_blobs(&block(1, 1), &wanted), Ok(vec![]));
}

#[test]
fn copy_of_a_blob_provider_holds_the_same_blobs_on_its_own() {
    let mut provider = TestBlobProvider::default();
    let a = Blob { bytes: vec![0xaa; 8] };
    let b = Blob { bytes: vec![0xbb; 8] };
    provider.insert_blob(B256([1; 32]), a.clone());
    let mut copy = provider.clone();
    let wanted = [
        IndexedBlobHash { index: 0, hash: B256([1; 32]) },
        IndexedBlobHash { index: 1, hash: B256([2; 32]) },
    ];
    assert_eq!(copy.get_blobs(&block(1, 1), &wanted), Ok(vec![a.clone()]));
    copy.insert_blob(B256([2; 32]), b.clone());
    assert_eq!(copy.get_blobs(&block(1, 1), &wanted), Ok(vec![a.clone(), b]));
    assert_eq!(provider.get_blobs(&block(1, 1), &wanted), Ok(vec![a.clone()]));
    provider.clear();
    assert_eq!(provider.get_blobs(&block(1, 1), &wanted), Ok(vec![]));
    assert_eq!(copy.get_blobs(&block(1, 1), &wanted[..1]), Ok(vec![a]));
}

fn l2_block(hash: u8, number: u64) -> L2BlockInfo {
    L2BlockInfo {
        block_info: block(hash, number),
        l1_origin: BlockNumHash { number: 1, hash: B256([0xee; 32]) },
        seq_num: 0,
    }
}

#[test]
fn l2_block_info_by_number_and_short_circuit() {
    let mut provider =
        TestL2ChainProvider::new(vec![l2_block(10, 7), l2_block(20, 8), l2_block(30, 7)], vec![], vec![]);
    assert_eq!(provider.l2_block_info_by_number(7), Ok(l2_block(10, 7)));
    assert_eq!(provider.l2_block_info_by_number(8), Ok(l2_block(20, 8)));
    assert_eq!(provider.l2_block_info_by_number(9), Err(NotFound::Block));
    provider.short_circuit = true;
    assert_eq!(provider.l2_block_info_by_number(9), Ok(l2_block(10, 7)));
    assert_eq!(provider.l2_block_info_by_number(8), Ok(l2_block(10, 7)));
    let mut empty = TestL2ChainProvider::default();
    empty.short_circuit = true;
    assert_eq!(empty.l2_block_info_by_number(1), Err(NotFound::Block));
}

#[test]
fn op_block_is_found_by_header_number() {
    let first = OpBlock { header: header([1; 32], 3), transactions: vec![tx(1)] };
    let second = OpBlock { header: header([2; 32], 4), transactions: vec![] };
    let mut provider = TestL2ChainProvider::new(vec![], vec![first.clone(), second.clone()], vec![]);
    assert_eq!(provider.block_by_number(3), Ok(first));
    assert_eq!(provider.block_by_number(4), Ok(second));
    assert_eq!(provider.block_by_number(5), Err(NotFound::L2Block));
}

#[test]
fn system_config_is_found_by_number() {
    let one = SystemConfig { gas_limit: 1, ..Default::default() };
    let two = SystemConfig { gas_limit: 2, ..Default::default() };
    let three = SystemConfig { gas_limit: 3, ..Default::default() };
    let mut provider = TestL2ChainProvider::new(vec![], vec![], vec![(1, one), (2, two), (1, three)]);
    let config = RollupConfig::default();
    assert_eq!(provider.system_config_by_number(1, &config), Ok(three));
    assert_eq!(provider.system_config_by_number(2, &config), Ok(two));
    assert_eq!(provider.system_config_by_number(3, &config), Err(NotFound::SystemConfig));
}

#[test]
fn test_iter_hands_out_the_last_first() {
    let mut iter = TestIter {
        open_data_calls: vec![],
        results: vec![Ok(vec![1]), Err(PipelineError::NotEnoughData.temp()), Ok(vec![3])],
    };
    assert_eq!(iter.next(), Ok(vec![3]));
    assert_eq!(iter.next(), Err(PipelineErrorKind::Temporary(PipelineError::NotEnoughData)));
    assert_eq!(iter.next(), Ok(vec![1]));
    assert_eq!(iter.next(), Err(PipelineErrorKind::Temporary(PipelineError::Eof)));
    assert_eq!(iter.next(), Err(PipelineErrorKind::Temporary(PipelineError::Eof)));
    assert_eq!(TestIter::default().next(), Err(PipelineErrorKind::Temporary(PipelineError::Eof)));
}

#[test]
fn dap_opens_data_with_errors_as_end_of_data() {
    let dap = TestDAP {
        batch_inbox_address: Address([7; 20]),
        results: vec![
            Ok(vec![1, 2]),
            Err(PipelineErrorKind::Critical(PipelineError::Provider)),
            Err(PipelineErrorKind::Reset),
            Ok(vec![]),
        ],
    };
    let iter = dap.open_data(&block(5, 5)).unwrap();
    assert_eq!(
        iter,
        TestIter {
            open_data_calls: vec![(block(5, 5), Address([7; 20]))],
            results: vec![
                Ok(vec![1, 2]),
                Err(PipelineErrorKind::Temporary(PipelineError::Eof)),
                Err(PipelineErrorKind::Temporary(PipelineError::Eof)),
                Ok(vec![]),
            ],
        }
    );
    let empty = TestDAP::default().open_data(&block(5, 5)).unwrap();
    assert!(empty.results.is_empty());
    assert_eq!(empty.open_data_calls, vec![(block(5, 5), Address([0; 20]))]);
}

#[test]
fn mock_frame_queue_provider() {
    let mut mock = MockFrameQueueProvider::new(vec![Ok(vec![1]), Ok(vec![2])]);
    assert_eq!(mock.origin(), None);
    mock.set_origin(block(3, 3));
    assert_eq!(mock.origin(), Some(block(3, 3)));
    assert_eq!(mock.advance_origin(), Ok(()));
    assert_eq!(mock.reset(block(4, 4), &SystemConfig::default()), Ok(()));
    assert_eq!(mock.origin(), Some(block(3, 3)));
    assert_eq!(mock.next_data(), Ok(vec![2]));
    assert_eq!(mock.next_data(), Ok(vec![1]));
    assert_eq!(mock.next_data(), Err(PipelineErrorKind::Temporary(PipelineError::Eof)));
    assert_eq!(
        MockFrameQueueProvider::default().next_data(),
        Err(PipelineErrorKind::Temporary(PipelineError::Eof))
    );
}

#[test]
fn duplicates_are_equal() {
    let r = receipt(5);
    assert_eq!(r.duplicate(), r);
    assert_eq!(r.logs[0].duplicate(), r.logs[0]);
    assert_eq!(tx(3).duplicate(), tx(3));
    let blob = Blob { bytes: vec![1, 2, 3] };
    assert_eq!(blob.duplicate(), blob);
    let op = OpBlock { header: header([1; 32], 3), transactions: vec![tx(1)] };
    assert_eq!(op.duplicate(), op);
    assert_eq!(Address::zero(), Address([0; 20]));
}
