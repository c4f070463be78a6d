//! Plain values that the client handles: hashes, addresses and block
//! references.

use crate::header::Header;
use alloy_eips::eip2718::Decodable2718;
use vstd::prelude::*;

verus! {

/// A 32-byte word: a hash or a root.
#[derive(Debug, Clone, Copy, PartialEq, Eq, Hash, Default)]
pub struct B256(pub [u8; 32]);

impl View for B256 {
    type V = Seq<u8>;

    open spec fn view(&self) -> Seq<u8> {
        self.0@
    }
}

impl B256 {
    /// The word of 32 zero bytes.
    pub fn zero() -> (word: B256)
        ensures
            word@ == Seq::new(32, |i: int| 0u8),
    {
        let word = B256([0u8; 32]);
        assert(word@ =~= Seq::new(32, |i: int| 0u8));
        word
    }

    /// Whether two words hold the same bytes.
    pub fn eq_word(&self, other: &B256) -> (same: bool)
        ensures
            same == (self@ == other@),
            same == (*self == *other),
    {
        let mut i: usize = 0;
        while i < 32
            invariant
                i <= 32,
                forall|j: int| 0 <= j < i ==> self.0@[j] == other.0@[j],
            decreases 32 - i,
        {
            if self.0[i] != other.0[i] {
                return false;
            }
            i = i + 1;
        }
        assert(self.0@ =~= other.0@);
        assert(self.0 == other.0);
        true
    }
}

/// Two words with the same bytes are the same word.
pub proof fn lemma_word_by_bytes(a: B256, b: B256)
    requires
        a@ == b@,
    ensures
        a == b,
{
    assert(a.0@ =~= b.0@);
    assert(a.0 == b.0);
}

/// A 20-byte account address.
#[derive(Debug, Clone, Copy, PartialEq, Eq, Hash, Default)]
pub struct Address(pub [u8; 20]);

impl View for Address {
    type V = Seq<u8>;

    open spec fn view(&self) -> Seq<u8> {
        self.0@
    }
}

impl Address {
    /// The address of 20 zero bytes.
    pub fn zero() -> (address: Address)
        ensures
            address@ == Seq::new(20, |i: int| 0u8),
    {
        let address = Address([0u8; 20]);
        assert(address@ =~= Seq::new(20, |i: int| 0u8));
        address
    }
}

/// A block by its hash, with its number, its parent and its time.
#[derive(Debug, Clone, Copy, PartialEq, Eq, Hash, Default)]
pub struct BlockInfo {
    /// The hash of the block.
    pub hash: B256,
    /// The number of the block.
    pub number: u64,
    /// The hash of the parent block.
    pub parent_hash: B256,
    /// The time of the block.
    pub timestamp: u64,
}

/// A block by its number and hash.
#[derive(Debug, Clone, Copy, PartialEq, Eq, Hash, Default)]
pub struct BlockNumHash {
    /// The number of the block.
    pub number: u64,
    /// The hash of the block.
    pub hash: B256,
}

/// A layer 2 block with the layer 1 block that it was derived from.
#[derive(Debug, Clone, Copy, PartialEq, Eq, Hash, Default)]
pub struct L2BlockInfo {
    /// The layer 2 block.
    pub block_info: BlockInfo,
    /// The layer 1 origin of the block.
    pub l1_origin: BlockNumHash,
    /// How many layer 2 blocks with the same origin go before it.
    pub seq_num: u64,
}

/// The part of the chain configuration that layer 1 can change.
#[derive(Debug, Clone, Copy, PartialEq, Eq, Hash, Default)]
pub struct SystemConfig {
    /// The account that may submit batches.
    pub batcher_address: Address,
    /// The fee overhead, as a 32-byte number.
    pub overhead: B256,
    /// The fee scalar, as a 32-byte number.
    pub scalar: B256,
    /// The gas limit of a layer 2 block.
    pub gas_limit: u64,
}

/// A blob of the beacon chain.
#[derive(Debug, Clone, PartialEq, Eq, Default)]
pub struct Blob {
    /// The bytes of the blob.
    pub bytes: Vec<u8>,
}

impl View for Blob {
    type V = Seq<u8>;

    open spec fn view(&self) -> Seq<u8> {
        self.bytes@
    }
}

impl Blob {
    /// A blob with the same bytes.
    pub fn duplicate(&self) -> (copy: Blob)
        ensures
            copy@ == self@,
    {
        Blob { bytes: self.bytes.clone() }
    }
}

/// A blob hash with the index of the blob in its block.
#[derive(Debug, Clone, Copy, PartialEq, Eq, Hash, Default)]
pub struct IndexedBlobHash {
    /// The index of the blob.
    pub index: u64,
    /// The hash of the blob.
    pub hash: B256,
}

/// A transaction in its encoded form.
#[derive(Debug, Clone, PartialEq, Eq, Default)]
pub struct TxEnvelope {
    /// The encoding of the transaction.
    pub encoded: Vec<u8>,
}

impl View for TxEnvelope {
    type V = Seq<u8>;

    open spec fn view(&self) -> Seq<u8> {
        self.encoded@
    }
}

impl TxEnvelope {
    /// A transaction with the same encoding.
    pub fn duplicate(&self) -> (copy: TxEnvelope)
        ensures
            copy@ == self@,
    {
        TxEnvelope { encoded: self.encoded.clone() }
    }
}

/// What a log says: who wrote it, its topics and its data.
pub struct LogView {
    pub address: Address,
    pub topics: Seq<B256>,
    pub data: Seq<u8>,
}

/// A log of a transaction.
#[derive(Debug, Clone, PartialEq, Eq, Default)]
pub struct Log {
    /// The contract that wrote the log.
    pub address: Address,
    /// The topics of the log.
    pub topics: Vec<B256>,
    /// The data of the log.
    pub data: Vec<u8>,
}

impl View for Log {
    type V = LogView;

    open spec fn view(&self) -> LogView {
        LogView { address: self.address, topics: self.topics@, data: self.data@ }
    }
}

impl Log {
    /// A log that says the same.
    pub fn duplicate(&self) -> (copy: Log)
        ensures
            copy@ == self@,
    {
        let mut topics: Vec<B256> = Vec::new();
        let mut i: usize = 0;
        while i < self.topics.len()
            invariant
                i <= self.topics@.len(),
                topics@ == self.topics@.take(i as int),
            decreases self.topics@.len() - i,
        {
            topics.push(self.topics[i]);
            assert(self.topics@.take(i + 1) =~= self.topics@.take(i as int).push(self.topics@[i as int]));
            i = i + 1;
        }
        assert(self.topics@.take(self.topics@.len() as int) =~= self.topics@);
        Log { address: self.address, topics, data: self.data.clone() }
    }
}

/// What a receipt says: whether the transaction succeeded, the gas used in
/// the block so far, and the logs.
pub struct ReceiptView {
    pub status: bool,
    pub cumulative_gas_used: u64,
    pub logs: Seq<LogView>,
}

/// The receipt of a transaction.
#[derive(Debug, Clone, PartialEq, Eq, Default)]
pub struct Receipt {
    /// Whether the transaction succeeded.
    pub status: bool,
    /// The gas used in the block up to and with this transaction.
    pub cumulative_gas_used: u64,
    /// The logs of the transaction.
    pub logs: Vec<Log>,
}

impl View for Receipt {
    type V = ReceiptView;

    open spec fn view(&self) -> ReceiptView {
        ReceiptView {
            status: self.status,
            cumulative_gas_used: self.cumulative_gas_used,
            logs: self.logs@.map_values(|log: Log| log@),
        }
    }
}

impl Receipt {
    /// A receipt that says the same.
    pub fn duplicate(&self) -> (copy: Receipt)
        ensures
            copy@ == self@,
    {
        let mut logs: Vec<Log> = Vec::new();
        let mut i: usize = 0;
        while i < self.logs.len()
            invariant
                i <= self.logs@.len(),
                logs@.len() == i,
                forall|j: int| 0 <= j < i ==> logs@[j]@ == self.logs@[j]@,
            decreases self.logs@.len() - i,
        {
            logs.push(self.logs[i].duplicate());
            i = i + 1;
        }
        assert(logs@.map_values(|log: Log| log@) =~= self.logs@.map_values(|log: Log| log@));
        Receipt { status: self.status, cumulative_gas_used: self.cumulative_gas_used, logs }
    }
}

/// What the receipt with the encoding `bytes` says; `None` where `bytes` do
/// not start with the encoding of a receipt.
pub uninterp spec fn receipt_of(bytes: Seq<u8>) -> Option<ReceiptView>;

/// What a decoded receipt says, if there is one.
pub open spec fn decoded_receipt_view(r: Option<Receipt>) -> Option<ReceiptView> {
    match r {
        Some(receipt) => Some(receipt@),
        None => None,
    }
}

/// `decode_2718` of `alloy_eips` for the `ReceiptEnvelope` of
/// `alloy_consensus`: the receipt that `bytes` start with, typed or not,
/// handed out with its status as a truth value, its gas and its logs.
#[verifier::external_body]
pub(crate) fn decode_receipt(bytes: &[u8]) -> (r: Option<Receipt>)
    ensures
        decoded_receipt_view(r) == receipt_of(bytes@),
{
    let envelope = alloy_consensus::ReceiptEnvelope::decode_2718(&mut &bytes[..]).ok()?;
    let receipt = envelope.as_receipt()?;
    let logs = receipt.logs.iter().map(
        |log| Log {
            address: Address(log.address.0.0),
            topics: log.topics().iter().map(|topic| B256(topic.0)).collect(),
            data: log.data.data.to_vec(),
        },
    );
    Some(Receipt {
        status: receipt.status.coerce_status(),
        cumulative_gas_used: receipt.cumulative_gas_used,
        logs: logs.collect(),
    })
}

/// What each receipt of `receipts` says.
pub open spec fn receipt_views(receipts: Seq<Receipt>) -> Seq<ReceiptView> {
    receipts.map_values(|receipt: Receipt| receipt@)
}

/// The encoding of each transaction of `transactions`.
pub open spec fn tx_views(transactions: Seq<TxEnvelope>) -> Seq<Seq<u8>> {
    transactions.map_values(|tx: TxEnvelope| tx@)
}

/// Receipts that say the same as `receipts`, in the same order.
pub fn duplicate_receipts(receipts: &Vec<Receipt>) -> (copy: Vec<Receipt>)
    ensures
        receipt_views(copy@) == receipt_views(receipts@),
{
    let mut copy: Vec<Receipt> = Vec::new();
    let mut i: usize = 0;
    while i < receipts.len()
        invariant
            i <= receipts@.len(),
            copy@.len() == i,
            forall|j: int| 0 <= j < i ==> copy@[j]@ == receipts@[j]@,
        decreases receipts@.len() - i,
    {
        copy.push(receipts[i].duplicate());
        i = i + 1;
    }
    assert(receipt_views(copy@) =~= receipt_views(receipts@));
    copy
}

/// Transactions with the same encodings as `transactions`, in the same order.
pub fn duplicate_transactions(transactions: &Vec<TxEnvelope>) -> (copy: Vec<TxEnvelope>)
    ensures
        tx_views(copy@) == tx_views(transactions@),
{
    let mut copy: Vec<TxEnvelope> = Vec::new();
    let mut i: usize = 0;
    while i < transactions.len()
        invariant
            i <= transactions@.len(),
            copy@.len() == i,
            forall|j: int| 0 <= j < i ==> copy@[j]@ == transactions@[j]@,
        decreases transactions@.len() - i,
    {
        copy.push(transactions[i].duplicate());
        i = i + 1;
    }
    assert(tx_views(copy@) =~= tx_views(transactions@));
    copy
}

/// The rules of a rollup that the client reads.
#[derive(Debug, Clone, Copy, PartialEq, Eq, Hash, Default)]
pub struct RollupConfig {
    /// The identifier of the layer 2 chain.
    pub l2_chain_id: u64,
    /// Seconds between two layer 2 blocks.
    pub block_time: u64,
    /// How many layer 1 blocks a batch may come after its origin.
    pub seq_window_size: u64,
    /// How many layer 1 blocks a channel may stay open.
    pub channel_timeout: u64,
    /// How far the time of a layer 2 block may run ahead of its origin.
    pub max_sequencer_drift: u64,
}

/// A layer 2 block: its header and its transactions.
#[derive(Debug, Clone, PartialEq, Eq)]
pub struct OpBlock {
    /// The header of the block.
    pub header: Header,
    /// The transactions of the block, each in its encoded form.
    pub transactions: Vec<TxEnvelope>,
}

impl OpBlock {
    /// A block with the same header and the same transactions.
    pub fn duplicate(&self) -> (copy: OpBlock)
        ensures
            copy.header@ == self.header@,
            copy.header.wf(),
            copy.header.fields() == self.header.fields(),
            tx_views(copy.transactions@) == tx_views(self.transactions@),
    {
        OpBlock {
            header: self.header.duplicate(),
            transactions: duplicate_transactions(&self.transactions),
        }
    }
}

/// One layer 2 block to execute.
#[derive(Debug, Clone, PartialEq, Eq, Default)]
pub struct L2PayloadAttributes {
    /// The hash of the block that this one follows.
    pub parent_hash: B256,
    /// The time of the block.
    pub timestamp: u64,
    /// The randomness of the block.
    pub prev_randao: B256,
    /// The account that receives the fees.
    pub fee_recipient: Address,
    /// The transactions of the block, in order, each in its encoded form.
    pub transactions: Vec<Vec<u8>>,
    /// Whether the block takes no transactions but these.
    pub no_tx_pool: bool,
    /// The gas limit of the block.
    pub gas_limit: Option<u64>,
}

/// Payload attributes with the block that they follow.
#[derive(Debug, Clone, PartialEq, Eq, Default)]
pub struct L2AttributesWithParent {
    /// The attributes.
    pub attributes: L2PayloadAttributes,
    /// The layer 2 block that the attributes follow.
    pub parent: L2BlockInfo,
    /// Whether the attributes describe the disputed block.
    pub is_disputed: bool,
}

} // verus!
