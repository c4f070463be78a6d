//! Providers and stages that serve what they were filled with. They stand in
//! for the chain wherever the pipeline is exercised without an oracle.

use crate::driver::Pipeline;
use crate::driver::StepResult;
use crate::errors::BlobProviderError;
use crate::errors::PipelineError;
use crate::errors::PipelineErrorKind;
use crate::header::Header;
use crate::primitives::duplicate_receipts;
use crate::primitives::duplicate_transactions;
use crate::primitives::receipt_views;
use crate::primitives::tx_views;
use crate::primitives::Address;
use crate::primitives::Blob;
use crate::primitives::BlockInfo;
use crate::primitives::IndexedBlobHash;
use crate::primitives::L2AttributesWithParent;
use crate::primitives::L2BlockInfo;
use crate::primitives::OpBlock;
use crate::primitives::Receipt;
use crate::primitives::RollupConfig;
use crate::primitives::SystemConfig;
use crate::primitives::TxEnvelope;
use crate::primitives::B256;
use crate::search::first_match;
use crate::search::is_first;
use crate::search::lemma_first_match;
use crate::search::lemma_no_match;
use crate::store::blobs;
use crate::store::system_configs;
use crate::store::BlobMap;
use crate::store::SystemConfigMap;
use crate::traits::BlobProvider;
use crate::traits::ChainProvider;
use crate::traits::DataAvailabilityProvider;
use crate::traits::DataIterator;
use crate::traits::FrameQueueProvider;
use crate::traits::L2ChainProvider;
use crate::traits::OriginAdvancer;
use crate::traits::OriginProvider;
use crate::traits::ResettableStage;
use vstd::prelude::*;

verus! {

/// What a provider was asked for and does not hold.
#[derive(Debug, Clone, Copy, PartialEq, Eq, Hash, Structural)]
pub enum NotFound {
    /// A header.
    Header,
    /// A layer 1 block.
    Block,
    /// The receipts of a block.
    Receipts,
    /// A layer 2 block.
    L2Block,
    /// A system configuration.
    SystemConfig,
}

impl NotFound {
    /// The message of the error.
    pub open spec fn text(self) -> Seq<char> {
        match self {
            NotFound::Header => "Header not found"@,
            NotFound::Block => "Block not found"@,
            NotFound::Receipts => "Receipts not found"@,
            NotFound::L2Block => "L2 Block not found"@,
            NotFound::SystemConfig => "System config not found"@,
        }
    }

    /// The message of the error.
    pub fn message(self) -> (text: &'static str)
        ensures
            text@ == self.text(),
    {
        match self {
            NotFound::Header => "Header not found",
            NotFound::Block => "Block not found",
            NotFound::Receipts => "Receipts not found",
            NotFound::L2Block => "L2 Block not found",
            NotFound::SystemConfig => "System config not found",
        }
    }
}

/// A piece of data, or why there is none, with the bytes as a sequence.
pub open spec fn data_view(item: Result<Vec<u8>, PipelineErrorKind>) -> Result<
    Seq<u8>,
    PipelineErrorKind,
> {
    match item {
        Ok(bytes) => Ok(bytes@),
        Err(e) => Err(e),
    }
}

/// Each piece of `items`, with the bytes as a sequence.
pub open spec fn data_views(items: Seq<Result<Vec<u8>, PipelineErrorKind>>) -> Seq<
    Result<Seq<u8>, PipelineErrorKind>,
> {
    items.map_values(|item: Result<Vec<u8>, PipelineErrorKind>| data_view(item))
}

/// What a data source without data reports.
pub open spec fn end_of_data() -> Result<Seq<u8>, PipelineErrorKind> {
    Err(PipelineErrorKind::Temporary(PipelineError::Eof))
}

/// The last of `results`, taken off them; the end of data where there is
/// none.
fn pop_data(results: &mut Vec<Result<Vec<u8>, PipelineErrorKind>>) -> (item: Result<
    Vec<u8>,
    PipelineErrorKind,
>)
    ensures
        old(results)@.len() == 0 ==> data_view(item) == end_of_data() && final(results)@ == old(results)@,
        old(results)@.len() > 0 ==> item == old(results)@.last() && final(results)@ == old(results)@.drop_last(),
{
    match results.pop() {
        Some(item) => item,
        None => Err(PipelineError::Eof.temp()),
    }
}

/// A data source that hands out what it was filled with, the last piece
/// first.
#[derive(Debug, PartialEq)]
pub struct TestIter {
    /// The blocks that the data was opened for, with the batch inbox.
    pub open_data_calls: Vec<(BlockInfo, Address)>,
    /// The pieces of data that are still to come.
    pub results: Vec<Result<Vec<u8>, PipelineErrorKind>>,
}

impl Default for TestIter {
    fn default() -> (iter: TestIter)
        ensures
            iter.open_data_calls@.len() == 0,
            iter.results@.len() == 0,
    {
        TestIter { open_data_calls: Vec::new(), results: Vec::new() }
    }
}

impl DataIterator for TestIter {
    type Item = Vec<u8>;

    /// The last piece that is still to come; the end of data where none is
    /// left.
    fn next(&mut self) -> (item: Result<Vec<u8>, PipelineErrorKind>)
        ensures
            final(self).open_data_calls == old(self).open_data_calls,
            old(self).results@.len() == 0 ==> data_view(item) == end_of_data() && final(self).results@ == old(self).results@,
            old(self).results@.len() > 0 ==> item == old(self).results@.last() && final(self).results@ == old(self).results@.drop_last(),
    {
        pop_data(&mut self.results)
    }
}

/// A data availability provider that opens the same data for every block.
#[derive(Debug)]
pub struct TestDAP {
    /// The address of the batch inbox.
    pub batch_inbox_address: Address,
    /// What the sources that it opens hand out.
    pub results: Vec<Result<Vec<u8>, PipelineErrorKind>>,
}

impl Default for TestDAP {
    fn default() -> (dap: TestDAP)
        ensures
            dap.batch_inbox_address@ == Seq::new(20, |i: int| 0u8),
            dap.results@.len() == 0,
    {
        TestDAP { batch_inbox_address: Address::zero(), results: Vec::new() }
    }
}

/// What a source opened over `item` hands out for it: the data, or the end
/// of data in place of any error.
pub open spec fn opened(item: Result<Vec<u8>, PipelineErrorKind>) -> Result<
    Seq<u8>,
    PipelineErrorKind,
> {
    match item {
        Ok(bytes) => Ok(bytes@),
        Err(_) => end_of_data(),
    }
}

impl DataAvailabilityProvider for TestDAP {
    type Item = Vec<u8>;

    type DataIter = TestIter;

    /// A source over the provider's data, in which every error has become
    /// the end of data. The source records the block and the batch inbox.
    fn open_data(&self, block_ref: &BlockInfo) -> (r: Result<TestIter, PipelineErrorKind>)
        ensures
            r is Ok,
            r->Ok_0.open_data_calls@ == seq![(*block_ref, self.batch_inbox_address)],
            data_views(r->Ok_0.results@) == self.results@.map_values(
                |item: Result<Vec<u8>, PipelineErrorKind>| opened(item),
            ),
    {
        let mut results: Vec<Result<Vec<u8>, PipelineErrorKind>> = Vec::new();
        let mut i: usize = 0;
        while i < self.results.len()
            invariant
                i <= self.results@.len(),
                results@.len() == i,
                forall|j: int| 0 <= j < i ==> data_view(results@[j]) == opened(self.results@[j]),
            decreases self.results@.len() - i,
        {
            let item = match &self.results[i] {
                Ok(bytes) => Ok(bytes.clone()),
                Err(_) => Err(PipelineError::Eof.temp()),
            };
            results.push(item);
            i = i + 1;
        }
        assert(data_views(results@) =~= self.results@.map_values(
            |item: Result<Vec<u8>, PipelineErrorKind>| opened(item),
        ));
        let mut open_data_calls: Vec<(BlockInfo, Address)> = Vec::new();
        open_data_calls.push((*block_ref, self.batch_inbox_address));
        assert(open_data_calls@ =~= seq![(*block_ref, self.batch_inbox_address)]);
        Ok(TestIter { open_data_calls, results })
    }
}

/// A chain provider that serves what was put into its lists.
#[derive(Debug, Clone)]
pub struct TestChainProvider {
    /// Blocks by number.
    pub blocks: Vec<(u64, BlockInfo)>,
    /// Headers by hash.
    pub headers: Vec<(B256, Header)>,
    /// Receipts by block hash.
    pub receipts: Vec<(B256, Vec<Receipt>)>,
    /// Transactions by block hash.
    pub transactions: Vec<(B256, Vec<TxEnvelope>)>,
}

impl Default for TestChainProvider {
    fn default() -> (provider: TestChainProvider)
        ensures
            provider.blocks@.len() == 0,
            provider.headers@.len() == 0,
            provider.receipts@.len() == 0,
            provider.transactions@.len() == 0,
    {
        TestChainProvider {
            blocks: Vec::new(),
            headers: Vec::new(),
            receipts: Vec::new(),
            transactions: Vec::new(),
        }
    }
}

impl TestChainProvider {
    /// Puts a block in, under `number`.
    pub fn insert_block(&mut self, number: u64, block: BlockInfo)
        ensures
            final(self).blocks@ == old(self).blocks@.push((number, block)),
            final(self).headers == old(self).headers,
            final(self).receipts == old(self).receipts,
            final(self).transactions == old(self).transactions,
    {
        self.blocks.push((number, block));
    }

    /// Puts a block in, under `number`, and its transactions, under the hash
    /// of the block.
    pub fn insert_block_with_transactions(
        &mut self,
        number: u64,
        block: BlockInfo,
        txs: Vec<TxEnvelope>,
    )
        ensures
            final(self).blocks@ == old(self).blocks@.push((number, block)),
            final(self).transactions@ == old(self).transactions@.push((block.hash, txs)),
            final(self).headers == old(self).headers,
            final(self).receipts == old(self).receipts,
    {
        self.blocks.push((number, block));
        self.transactions.push((block.hash, txs));
    }

    /// Puts receipts in, under the block hash `hash`.
    pub fn insert_receipts(&mut self, hash: B256, receipts: Vec<Receipt>)
        ensures
            final(self).receipts@ == old(self).receipts@.push((hash, receipts)),
            final(self).blocks == old(self).blocks,
            final(self).headers == old(self).headers,
            final(self).transactions == old(self).transactions,
    {
        self.receipts.push((hash, receipts));
    }

    /// Puts a header in, under `hash`.
    pub fn insert_header(&mut self, hash: B256, header: Header)
        ensures
            final(self).headers@ == old(self).headers@.push((hash, header)),
            final(self).blocks == old(self).blocks,
            final(self).receipts == old(self).receipts,
            final(self).transactions == old(self).transactions,
    {
        self.headers.push((hash, header));
    }

    /// Takes all headers out.
    pub fn clear_headers(&mut self)
        ensures
            final(self).headers@.len() == 0,
            final(self).blocks == old(self).blocks,
            final(self).receipts == old(self).receipts,
            final(self).transactions == old(self).transactions,
    {
        self.headers.clear();
    }

    /// Takes all blocks out.
    pub fn clear_blocks(&mut self)
        ensures
            final(self).blocks@.len() == 0,
            final(self).headers == old(self).headers,
            final(self).receipts == old(self).receipts,
            final(self).transactions == old(self).transactions,
    {
        self.blocks.clear();
    }

    /// Takes all receipts out.
    pub fn clear_receipts(&mut self)
        ensures
            final(self).receipts@.len() == 0,
            final(self).blocks == old(self).blocks,
            final(self).headers == old(self).headers,
            final(self).transactions == old(self).transactions,
    {
        self.receipts.clear();
    }

    /// Takes all blocks, receipts and headers out. The transactions stay.
    pub fn clear(&mut self)
        ensures
            final(self).blocks@.len() == 0,
            final(self).receipts@.len() == 0,
            final(self).headers@.len() == 0,
            final(self).transactions == old(self).transactions,
    {
        self.clear_blocks();
        self.clear_receipts();
        self.clear_headers();
    }

    /// The condition under which an entry of the headers is the header with
    /// the hash `hash`: the hash of the entry's header is `hash`, whatever it
    /// was put in under.
    pub open spec fn header_wanted(hash: B256) -> spec_fn((B256, Header)) -> bool {
        |entry: (B256, Header)| entry.1.spec_hash() == hash@
    }

    /// The condition under which an entry of the blocks has the number
    /// `number`.
    pub open spec fn number_wanted(number: u64) -> spec_fn((u64, BlockInfo)) -> bool {
        |entry: (u64, BlockInfo)| entry.0 == number
    }

    /// The condition under which an entry of the blocks is the block with the
    /// hash `hash`.
    pub open spec fn block_wanted(hash: B256) -> spec_fn((u64, BlockInfo)) -> bool {
        |entry: (u64, BlockInfo)| entry.1.hash == hash
    }

    /// The condition under which an entry of the receipts stands under `hash`.
    pub open spec fn receipts_wanted(hash: B256) -> spec_fn((B256, Vec<Receipt>)) -> bool {
        |entry: (B256, Vec<Receipt>)| entry.0 == hash
    }

    /// The condition under which an entry of the transactions stands under
    /// `hash`.
    pub open spec fn transactions_wanted(hash: B256) -> spec_fn((B256, Vec<TxEnvelope>)) -> bool {
        |entry: (B256, Vec<TxEnvelope>)| entry.0 == hash
    }

    /// The transactions of the first entry under `hash`; none where there is
    /// no such entry.
    pub open spec fn transactions_under(self, hash: B256) -> Seq<Seq<u8>> {
        match first_match(self.transactions@, Self::transactions_wanted(hash)) {
            Some(at) => tx_views(self.transactions@[at].1@),
            None => Seq::empty(),
        }
    }
}

impl ChainProvider for TestChainProvider {
    type Error = NotFound;

    /// The first header in the list whose hash is `hash`.
    fn header_by_hash(&mut self, hash: B256) -> (r: Result<Header, NotFound>)
        ensures
            *final(self) == *old(self),
            match first_match(old(self).headers@, Self::header_wanted(hash)) {
                Some(at) => r is Ok && r->Ok_0@ == old(self).headers@[at].1@ && r->Ok_0.wf()
                    && r->Ok_0.spec_hash() == hash@,
                None => r == Err::<Header, NotFound>(NotFound::Header),
            },
    {
        let mut i: usize = 0;
        while i < self.headers.len()
            invariant
                i <= self.headers@.len(),
                forall|j: int| 0 <= j < i ==> !Self::header_wanted(hash)(#[trigger] self.headers@[j]),
            decreases self.headers@.len() - i,
        {
            let found = self.headers[i].1.hash_slow();
            if found.eq_word(&hash) {
                proof {
                    lemma_first_match(self.headers@, Self::header_wanted(hash), i as int);
                }
                return Ok(self.headers[i].1.duplicate());
            }
            i = i + 1;
        }
        proof {
            lemma_no_match(self.headers@, Self::header_wanted(hash));
        }
        Err(NotFound::Header)
    }

    /// The first block in the list that was put in under `number`.
    fn block_info_by_number(&mut self, number: u64) -> (r: Result<BlockInfo, NotFound>)
        ensures
            *final(self) == *old(self),
            match first_match(old(self).blocks@, Self::number_wanted(number)) {
                Some(at) => r == Ok::<BlockInfo, NotFound>(old(self).blocks@[at].1),
                None => r == Err::<BlockInfo, NotFound>(NotFound::Block),
            },
    {
        let mut i: usize = 0;
        while i < self.blocks.len()
            invariant
                i <= self.blocks@.len(),
                forall|j: int| 0 <= j < i ==> !Self::number_wanted(number)(#[trigger] self.blocks@[j]),
            decreases self.blocks@.len() - i,
        {
            if self.blocks[i].0 == number {
                proof {
                    lemma_first_match(self.blocks@, Self::number_wanted(number), i as int);
                }
                return Ok(self.blocks[i].1);
            }
            i = i + 1;
        }
        proof {
            lemma_no_match(self.blocks@, Self::number_wanted(number));
        }
        Err(NotFound::Block)
    }

    /// The receipts of the first entry that was put in under `hash`.
    fn receipts_by_hash(&mut self, hash: B256) -> (r: Result<Vec<Receipt>, NotFound>)
        ensures
            *final(self) == *old(self),
            match first_match(old(self).receipts@, Self::receipts_wanted(hash)) {
                Some(at) => r is Ok && receipt_views(r->Ok_0@) == receipt_views(
                    old(self).receipts@[at].1@,
                ),
                None => r == Err::<Vec<Receipt>, NotFound>(NotFound::Receipts),
            },
    {
        let mut i: usize = 0;
        while i < self.receipts.len()
            invariant
                i <= self.receipts@.len(),
                forall|j: int|
                    0 <= j < i ==> !Self::receipts_wanted(hash)(#[trigger] self.receipts@[j]),
            decreases self.receipts@.len() - i,
        {
            if self.receipts[i].0.eq_word(&hash) {
                proof {
                    lemma_first_match(self.receipts@, Self::receipts_wanted(hash), i as int);
                }
                return Ok(duplicate_receipts(&self.receipts[i].1));
            }
            i = i + 1;
        }
        proof {
            lemma_no_match(self.receipts@, Self::receipts_wanted(hash));
        }
        Err(NotFound::Receipts)
    }

    /// The first block in the list with the hash `hash`, and the transactions
    /// of the first entry that was put in under `hash`; no transactions where
    /// there is no such entry.
    fn block_info_and_transactions_by_hash(&mut self, hash: B256) -> (r: Result<
        (BlockInfo, Vec<TxEnvelope>),
        NotFound,
    >)
        ensures
            *final(self) == *old(self),
            match first_match(old(self).blocks@, Self::block_wanted(hash)) {
                Some(at) => r is Ok && r->Ok_0.0 == old(self).blocks@[at].1 && tx_views(
                    r->Ok_0.1@,
                ) == old(self).transactions_under(hash),
                None => r == Err::<(BlockInfo, Vec<TxEnvelope>), NotFound>(NotFound::Block),
            },
    {
        let mut i: usize = 0;
        while i < self.blocks.len() && !self.blocks[i].1.hash.eq_word(&hash)
            invariant
                i <= self.blocks@.len(),
                forall|j: int| 0 <= j < i ==> !Self::block_wanted(hash)(#[trigger] self.blocks@[j]),
            decreases self.blocks@.len() - i,
        {
            i = i + 1;
        }
        if i == self.blocks.len() {
            proof {
                lemma_no_match(self.blocks@, Self::block_wanted(hash));
            }
            return Err(NotFound::Block);
        }
        proof {
            lemma_first_match(self.blocks@, Self::block_wanted(hash), i as int);
        }
        let block = self.blocks[i].1;
        let mut k: usize = 0;
        while k < self.transactions.len()
            invariant
                k <= self.transactions@.len(),
                i < self.blocks@.len(),
                first_match(self.blocks@, Self::block_wanted(hash)) == Some(i as int),
                block == self.blocks@[i as int].1,
                forall|j: int|
                    0 <= j < k ==> !Self::transactions_wanted(hash)(
                        #[trigger] self.transactions@[j],
                    ),
            decreases self.transactions@.len() - k,
        {
            if self.transactions[k].0.eq_word(&hash) {
                proof {
                    lemma_first_match(
                        self.transactions@,
                        Self::transactions_wanted(hash),
                        k as int,
                    );
                }
                return Ok((block, duplicate_transactions(&self.transactions[k].1)));
            }
            k = k + 1;
        }
        proof {
            lemma_no_match(self.transactions@, Self::transactions_wanted(hash));
        }
        let none: Vec<TxEnvelope> = Vec::new();
        assert(tx_views(none@) =~= Seq::<Seq<u8>>::empty());
        Ok((block, none))
    }
}

/// The blobs that `held` holds under the hashes of `hashes`, in the order of
/// `hashes`; a hash that `held` does not hold adds nothing.
pub open spec fn blobs_found(held: Map<Seq<u8>, Seq<u8>>, hashes: Seq<IndexedBlobHash>) -> Seq<
    Seq<u8>,
>
    decreases hashes.len(),
{
    if hashes.len() == 0 {
        Seq::empty()
    } else {
        let before = blobs_found(held, hashes.drop_last());
        if held.contains_key(hashes.last().hash@) {
            before.push(held[hashes.last().hash@])
        } else {
            before
        }
    }
}

/// The bytes of each blob of `found`.
pub open spec fn blob_views(found: Seq<Blob>) -> Seq<Seq<u8>> {
    found.map_values(|blob: Blob| blob@)
}

/// A blob provider that serves what was put into its map.
#[derive(Debug)]
pub struct TestBlobProvider {
    /// Blobs by hash.
    pub blobs: BlobMap,
}

impl Default for TestBlobProvider {
    fn default() -> (provider: TestBlobProvider)
        ensures
            provider.blobs@ == (Map::<Seq<u8>, Seq<u8>>::empty()),
    {
        TestBlobProvider { blobs: BlobMap::new() }
    }
}

impl Clone for TestBlobProvider {
    fn clone(&self) -> (copy: TestBlobProvider)
        ensures
            copy.blobs@ == self.blobs@,
    {
        TestBlobProvider { blobs: self.blobs.duplicate() }
    }
}

impl TestBlobProvider {
    /// Puts a blob in, under `hash`, in place of the one that is there.
    pub fn insert_blob(&mut self, hash: B256, blob: Blob)
        ensures
            final(self).blobs@ == old(self).blobs@.insert(hash@, blob@),
    {
        self.blobs.insert(hash.0, blob);
    }

    /// Takes all blobs out.
    pub fn clear(&mut self)
        ensures
            final(self).blobs@ == (Map::<Seq<u8>, Seq<u8>>::empty()),
    {
        self.blobs.clear();
    }
}

impl BlobProvider for TestBlobProvider {
    type Error = BlobProviderError;

    /// The blobs under the hashes of `blob_hashes`, in their order. A hash
    /// without a blob is passed over.
    fn get_blobs(&mut self, block_ref: &BlockInfo, blob_hashes: &[IndexedBlobHash]) -> (r: Result<
        Vec<Blob>,
        BlobProviderError,
    >)
        ensures
            final(self).blobs@ == old(self).blobs@,
            r is Ok,
            blob_views(r->Ok_0@) == blobs_found(old(self).blobs@, blob_hashes@),
    {
        let mut found: Vec<Blob> = Vec::new();
        let mut i: usize = 0;
        assert(blob_hashes@.take(0) =~= Seq::<IndexedBlobHash>::empty());
        assert(blob_views(found@) =~= Seq::<Seq<u8>>::empty());
        while i < blob_hashes.len()
            invariant
                i <= blob_hashes@.len(),
                self.blobs@ == old(self).blobs@,
                blob_views(found@) == blobs_found(self.blobs@, blob_hashes@.take(i as int)),
            decreases blob_hashes@.len() - i,
        {
            let ghost before = found@;
            assert(blob_hashes@.take(i + 1).drop_last() =~= blob_hashes@.take(i as int));
            assert(blob_hashes@.take(i + 1).last() == blob_hashes@[i as int]);
            match self.blobs.get(&blob_hashes[i].hash.0) {
                Some(blob) => {
                    found.push(blob.duplicate());
                    assert(blob_views(found@) =~= blob_views(before).push(blob@));
                },
                None => {},
            }
            i = i + 1;
        }
        assert(blob_hashes@.take(blob_hashes@.len() as int) =~= blob_hashes@);
        Ok(found)
    }
}

/// The condition under which a layer 2 block has the number `number`.
pub open spec fn l2_block_wanted(number: u64) -> spec_fn(L2BlockInfo) -> bool {
    |block: L2BlockInfo| block.block_info.number == number
}

/// The condition under which a whole layer 2 block has the number `number`.
pub open spec fn op_block_wanted(number: u64) -> spec_fn(OpBlock) -> bool {
    |block: OpBlock| block.header.fields().number == number
}

/// A layer 2 chain provider that serves what it was made with.
#[derive(Debug)]
pub struct TestL2ChainProvider {
    /// The layer 2 blocks.
    pub blocks: Vec<L2BlockInfo>,
    /// Whether every request for a block is answered with the first block.
    pub short_circuit: bool,
    /// The whole layer 2 blocks.
    pub op_blocks: Vec<OpBlock>,
    /// System configurations by block number.
    pub system_configs: SystemConfigMap,
}

/// The map that the entries of `entries` make: each later entry takes the
/// place of an earlier one with the same number.
pub open spec fn configs_of(entries: Seq<(u64, SystemConfig)>) -> Map<u64, SystemConfig>
    decreases entries.len(),
{
    if entries.len() == 0 {
        Map::empty()
    } else {
        configs_of(entries.drop_last()).insert(entries.last().0, entries.last().1)
    }
}

impl Default for TestL2ChainProvider {
    fn default() -> (provider: TestL2ChainProvider)
        ensures
            provider.blocks@.len() == 0,
            !provider.short_circuit,
            provider.op_blocks@.len() == 0,
            provider.system_configs@ == (Map::<u64, SystemConfig>::empty()),
    {
        TestL2ChainProvider {
            blocks: Vec::new(),
            short_circuit: false,
            op_blocks: Vec::new(),
            system_configs: SystemConfigMap::new(),
        }
    }
}

impl TestL2ChainProvider {
    /// A provider of the given blocks and system configurations, which
    /// answers each request by its number.
    pub fn new(
        blocks: Vec<L2BlockInfo>,
        op_blocks: Vec<OpBlock>,
        system_configs: Vec<(u64, SystemConfig)>,
    ) -> (provider: TestL2ChainProvider)
        ensures
            provider.blocks == blocks,
            !provider.short_circuit,
            provider.op_blocks == op_blocks,
            provider.system_configs@ == configs_of(system_configs@),
    {
        let mut held = SystemConfigMap::new();
        let mut i: usize = 0;
        assert(system_configs@.take(0) =~= Seq::<(u64, SystemConfig)>::empty());
        while i < system_configs.len()
            invariant
                i <= system_configs@.len(),
                held@ == configs_of(system_configs@.take(i as int)),
            decreases system_configs@.len() - i,
        {
            assert(system_configs@.take(i + 1).drop_last() =~= system_configs@.take(i as int));
            assert(system_configs@.take(i + 1).last() == system_configs@[i as int]);
            held.insert(system_configs[i].0, system_configs[i].1);
            i = i + 1;
        }
        assert(system_configs@.take(system_configs@.len() as int) =~= system_configs@);
        TestL2ChainProvider { blocks, short_circuit: false, op_blocks, system_configs: held }
    }
}

impl L2ChainProvider for TestL2ChainProvider {
    type Error = NotFound;

    /// The first block with the number `number`; with the short circuit on,
    /// the first block whatever its number.
    fn l2_block_info_by_number(&mut self, number: u64) -> (r: Result<L2BlockInfo, NotFound>)
        ensures
            final(self).blocks == old(self).blocks,
            final(self).short_circuit == old(self).short_circuit,
            final(self).op_blocks == old(self).op_blocks,
            final(self).system_configs@ == old(self).system_configs@,
            r == if old(self).short_circuit {
                if old(self).blocks@.len() > 0 {
                    Ok::<L2BlockInfo, NotFound>(old(self).blocks@[0])
                } else {
                    Err::<L2BlockInfo, NotFound>(NotFound::Block)
                }
            } else {
                match first_match(old(self).blocks@, l2_block_wanted(number)) {
                    Some(at) => Ok::<L2BlockInfo, NotFound>(old(self).blocks@[at]),
                    None => Err::<L2BlockInfo, NotFound>(NotFound::Block),
                }
            },
    {
        if self.short_circuit {
            if self.blocks.len() > 0 {
                return Ok(self.blocks[0]);
            }
            return Err(NotFound::Block);
        }
        let mut i: usize = 0;
        while i < self.blocks.len()
            invariant
                i <= self.blocks@.len(),
                !self.short_circuit,
                forall|j: int| 0 <= j < i ==> !l2_block_wanted(number)(#[trigger] self.blocks@[j]),
            decreases self.blocks@.len() - i,
        {
            if self.blocks[i].block_info.number == number {
                proof {
                    lemma_first_match(self.blocks@, l2_block_wanted(number), i as int);
                }
                return Ok(self.blocks[i]);
            }
            i = i + 1;
        }
        proof {
            lemma_no_match(self.blocks@, l2_block_wanted(number));
        }
        Err(NotFound::Block)
    }

    /// The first whole block whose header has the number `number`.
    fn block_by_number(&mut self, number: u64) -> (r: Result<OpBlock, NotFound>)
        ensures
            final(self).blocks == old(self).blocks,
            final(self).short_circuit == old(self).short_circuit,
            final(self).op_blocks == old(self).op_blocks,
            final(self).system_configs@ == old(self).system_configs@,
            match first_match(old(self).op_blocks@, op_block_wanted(number)) {
                Some(at) => r is Ok && r->Ok_0.header@ == old(self).op_blocks@[at].header@
                    && tx_views(r->Ok_0.transactions@) == tx_views(
                    old(self).op_blocks@[at].transactions@,
                ),
                None => r == Err::<OpBlock, NotFound>(NotFound::L2Block),
            },
    {
        let mut i: usize = 0;
        while i < self.op_blocks.len()
            invariant
                i <= self.op_blocks@.len(),
                forall|j: int|
                    0 <= j < i ==> !op_block_wanted(number)(#[trigger] self.op_blocks@[j]),
            decreases self.op_blocks@.len() - i,
        {
            if self.op_blocks[i].header.number() == number {
                proof {
                    lemma_first_match(self.op_blocks@, op_block_wanted(number), i as int);
                }
                return Ok(self.op_blocks[i].duplicate());
            }
            i = i + 1;
        }
        proof {
            lemma_no_match(self.op_blocks@, op_block_wanted(number));
        }
        Err(NotFound::L2Block)
    }

    /// The system configuration under `number`, whatever the rollup
    /// configuration.
    fn system_config_by_number(&mut self, number: u64, rollup_config: &RollupConfig) -> (r: Result<
        SystemConfig,
        NotFound,
    >)
        ensures
            final(self).blocks == old(self).blocks,
            final(self).short_circuit == old(self).short_circuit,
            final(self).op_blocks == old(self).op_blocks,
            final(self).system_configs@ == old(self).system_configs@,
            r == if old(self).system_configs@.contains_key(number) {
                Ok::<SystemConfig, NotFound>(old(self).system_configs@[number])
            } else {
                Err::<SystemConfig, NotFound>(NotFound::SystemConfig)
            },
    {
        match self.system_configs.get(&number) {
            Some(config) => Ok(*config),
            None => Err(NotFound::SystemConfig),
        }
    }
}

/// A provider for the frame queue that hands out what it was made with, the
/// last piece first.
#[derive(Debug)]
pub struct MockFrameQueueProvider {
    /// The pieces of data that are still to come.
    pub data: Vec<Result<Vec<u8>, PipelineErrorKind>>,
    /// The origin that it reports.
    pub origin: Option<BlockInfo>,
}

impl Default for MockFrameQueueProvider {
    fn default() -> (provider: MockFrameQueueProvider)
        ensures
            provider.data@.len() == 0,
            provider.origin is None,
    {
        MockFrameQueueProvider { data: Vec::new(), origin: None }
    }
}

impl MockFrameQueueProvider {
    /// A provider of the given data, without an origin.
    pub fn new(data: Vec<Result<Vec<u8>, PipelineErrorKind>>) -> (provider: MockFrameQueueProvider)
        ensures
            provider.data == data,
            provider.origin is None,
    {
        MockFrameQueueProvider { data, origin: None }
    }

    /// Sets the origin that the provider reports.
    pub fn set_origin(&mut self, origin: BlockInfo)
        ensures
            final(self).origin == Some(origin),
            final(self).data == old(self).data,
    {
        self.origin = Some(origin);
    }
}

impl OriginProvider for MockFrameQueueProvider {
    /// The origin that was set.
    fn origin(&self) -> (origin: Option<BlockInfo>)
        ensures
            origin == self.origin,
    {
        self.origin
    }
}

impl OriginAdvancer for MockFrameQueueProvider {
    /// Does nothing, and succeeds.
    fn advance_origin(&mut self) -> (r: Result<(), PipelineErrorKind>)
        ensures
            r is Ok,
            *final(self) == *old(self),
    {
        Ok(())
    }
}

impl FrameQueueProvider for MockFrameQueueProvider {
    type Item = Vec<u8>;

    /// The last piece that is still to come; the end of data where none is
    /// left.
    fn next_data(&mut self) -> (item: Result<Vec<u8>, PipelineErrorKind>)
        ensures
            final(self).origin == old(self).origin,
            old(self).data@.len() == 0 ==> data_view(item) == end_of_data() && final(self).data@
                == old(self).data@,
            old(self).data@.len() > 0 ==> item == old(self).data@.last() && final(self).data@
                == old(self).data@.drop_last(),
    {
        pop_data(&mut self.data)
    }
}

impl ResettableStage for MockFrameQueueProvider {
    /// Does nothing, and succeeds.
    fn reset(&mut self, base: BlockInfo, cfg: &SystemConfig) -> (r: Result<(), PipelineErrorKind>)
        ensures
            r is Ok,
            *final(self) == *old(self),
    {
        Ok(())
    }
}

/// A pipeline that plays a script: each step gives the last result of the
/// script that is left, and a step that prepares attributes makes the last of
/// the prepared attributes ready.
#[derive(Debug)]
pub struct TestPipeline {
    /// The origin that the pipeline reports.
    pub origin: Option<BlockInfo>,
    /// The results of the steps that are still to come, the last first.
    pub steps: Vec<StepResult>,
    /// The attributes that the steps will prepare, the last first.
    pub prepared: Vec<L2AttributesWithParent>,
    /// The attributes that are ready.
    pub ready: Option<L2AttributesWithParent>,
    /// The origins that the pipeline was reset to.
    pub resets: Vec<BlockInfo>,
}

impl OriginProvider for TestPipeline {
    /// The origin that was set.
    fn origin(&self) -> (origin: Option<BlockInfo>)
        ensures
            origin == self.origin,
    {
        self.origin
    }
}

impl Pipeline for TestPipeline {
    /// The attributes that are ready; afterwards none are.
    fn next(&mut self) -> (attributes: Option<L2AttributesWithParent>)
        ensures
            attributes == old(self).ready,
            final(self).ready is None,
            final(self).origin == old(self).origin,
            final(self).steps == old(self).steps,
            final(self).prepared == old(self).prepared,
            final(self).resets == old(self).resets,
    {
        self.ready.take()
    }

    /// The last result of the script; a failure for want of data where the
    /// script is at its end. A step that prepares attributes makes the last
    /// prepared attributes ready, if any are left.
    fn step(&mut self, cursor: L2BlockInfo) -> (result: StepResult)
        ensures
            final(self).origin == old(self).origin,
            final(self).resets == old(self).resets,
            result == if old(self).steps@.len() == 0 {
                StepResult::StepFailed(PipelineErrorKind::Temporary(PipelineError::Eof))
            } else {
                old(self).steps@.last()
            },
            final(self).steps@ == if old(self).steps@.len() == 0 {
                old(self).steps@
            } else {
                old(self).steps@.drop_last()
            },
            if old(self).steps@.len() > 0 && result == StepResult::PreparedAttributes && old(self).prepared@.len() > 0 {
                final(self).ready == Some(old(self).prepared@.last()) && final(self).prepared@
                    == old(self).prepared@.drop_last()
            } else {
                final(self).ready == old(self).ready && final(self).prepared@ == old(self).prepared@
            },
    {
        let result = match self.steps.pop() {
            Some(result) => result,
            None => {
                return StepResult::StepFailed(PipelineError::Eof.temp());
            },
        };
        match result {
            StepResult::PreparedAttributes => {
                match self.prepared.pop() {
                    Some(attributes) => {
                        self.ready = Some(attributes);
                    },
                    None => {},
                }
            },
            _ => {},
        }
        result
    }

    /// Notes the origin, takes it as its own, and succeeds.
    fn reset(&mut self, origin: BlockInfo, system_config: &SystemConfig) -> (r: Result<
        (),
        PipelineErrorKind,
    >)
        ensures
            r is Ok,
            final(self).origin == Some(origin),
            final(self).resets@ == old(self).resets@.push(origin),
            final(self).steps == old(self).steps,
            final(self).prepared == old(self).prepared,
            final(self).ready == old(self).ready,
    {
        self.origin = Some(origin);
        self.resets.push(origin);
        Ok(())
    }
}

} // verus!
