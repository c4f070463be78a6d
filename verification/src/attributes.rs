//! The transactions of a payload: which logs of the layer 1 origin are
//! deposits, and in which order the transactions of a layer 2 block stand.

use crate::digest::keccak256;
use crate::digest::keccak256_digest;
use crate::primitives::Address;
use crate::primitives::L2PayloadAttributes;
use crate::primitives::Log;
use crate::primitives::LogView;
use crate::primitives::Receipt;
use crate::primitives::ReceiptView;
use crate::primitives::B256;
use vstd::prelude::*;
use vstd::string::StringSliceAdditionalSpecFns;

verus! {

/// The signature of the event that the deposit contract writes for each
/// deposit.
pub open spec fn deposit_event_signature() -> Seq<u8> {
    "TransactionDeposited(address,address,uint256,bytes)"@.map_values(|c: char| c as u8)
}

/// The first topic of a deposit log: the Keccak-256 digest of the event's
/// signature.
pub open spec fn deposit_event_topic() -> Seq<u8> {
    keccak256_digest(deposit_event_signature())
}

/// The first topic of a deposit log.
pub fn deposit_topic() -> (topic: B256)
    ensures
        topic@ == deposit_event_topic(),
{
    let signature = "TransactionDeposited(address,address,uint256,bytes)";
    proof {
        reveal_strlit("TransactionDeposited(address,address,uint256,bytes)");
        vstd::utf8::is_ascii_chars_encode_utf8(signature@);
        assert(signature.spec_bytes() =~= deposit_event_signature());
    }
    keccak256(signature.as_bytes())
}

/// A log with its place among the logs of the successful transactions of its
/// block.
pub struct IndexedLogView {
    pub index: int,
    pub log: LogView,
}

/// A deposit log with its place among the logs of its block.
#[derive(Debug, Clone, PartialEq, Eq)]
pub struct DepositLog {
    /// The place of the log among the logs of the successful transactions of
    /// its block.
    pub index: usize,
    /// The log.
    pub log: Log,
}

impl View for DepositLog {
    type V = IndexedLogView;

    open spec fn view(&self) -> IndexedLogView {
        IndexedLogView { index: self.index as int, log: self.log@ }
    }
}

/// What each deposit of `deposits` says.
pub open spec fn deposit_views(deposits: Seq<DepositLog>) -> Seq<IndexedLogView> {
    deposits.map_values(|deposit: DepositLog| deposit@)
}

/// Whether a log is a deposit: the deposit contract wrote it, and its first
/// topic is that of the deposit event.
pub open spec fn is_deposit(log: LogView, deposit_contract: Address, topic: Seq<u8>) -> bool {
    &&& log.address == deposit_contract
    &&& log.topics.len() > 0
    &&& log.topics[0]@ == topic
}

/// The logs of the successful transactions of a block, in the order of the
/// receipts, and within a receipt in the order of its logs.
pub open spec fn successful_logs(receipts: Seq<ReceiptView>) -> Seq<LogView>
    decreases receipts.len(),
{
    if receipts.len() == 0 {
        Seq::empty()
    } else if receipts.last().status {
        successful_logs(receipts.drop_last()) + receipts.last().logs
    } else {
        successful_logs(receipts.drop_last())
    }
}

/// Each log of `logs` with its place.
pub open spec fn indexed(logs: Seq<LogView>) -> Seq<IndexedLogView> {
    Seq::new(logs.len(), |i: int| IndexedLogView { index: i, log: logs[i] })
}

/// The deposits among `logs`, each with its place in `logs`, in the order of
/// `logs`.
pub open spec fn deposits_among(logs: Seq<LogView>, deposit_contract: Address, topic: Seq<u8>) -> Seq<
    IndexedLogView,
> {
    indexed(logs).filter(|entry: IndexedLogView| is_deposit(entry.log, deposit_contract, topic))
}

/// Whether `log` is a deposit.
fn check_deposit(log: &Log, deposit_contract: &Address, topic: &B256) -> (yes: bool)
    ensures
        yes == is_deposit(log@, *deposit_contract, topic@),
{
    if log.topics.len() == 0 {
        return false;
    }
    if !log.topics[0].eq_word(topic) {
        return false;
    }
    let mut i: usize = 0;
    while i < 20
        invariant
            i <= 20,
            forall|j: int| 0 <= j < i ==> log.address.0@[j] == deposit_contract.0@[j],
        decreases 20 - i,
    {
        if log.address.0[i] != deposit_contract.0[i] {
            return false;
        }
        i = i + 1;
    }
    assert(log.address.0@ =~= deposit_contract.0@);
    assert(log.address.0 == deposit_contract.0);
    true
}

/// The logs of the first receipts of a block are no more than those of all.
pub proof fn lemma_logs_grow(receipts: Seq<ReceiptView>, first: int)
    requires
        0 <= first <= receipts.len(),
    ensures
        successful_logs(receipts.take(first)).len() <= successful_logs(receipts).len(),
    decreases receipts.len() - first,
{
    if first == receipts.len() {
        assert(receipts.take(first) =~= receipts);
    } else {
        lemma_logs_grow(receipts, first + 1);
        assert(receipts.take(first + 1).drop_last() =~= receipts.take(first));
    }
}

/// The deposit logs of a block, in layer 1 log order: the logs that the
/// deposit contract wrote with the topic of the deposit event, in the
/// successful transactions of the block. Each comes with its place among the
/// logs of the successful transactions.
pub fn deposit_logs(receipts: &Vec<Receipt>, deposit_contract: Address) -> (deposits: Vec<
    DepositLog,
>)
    requires
        successful_logs(crate::primitives::receipt_views(receipts@)).len() <= usize::MAX,
    ensures
        deposit_views(deposits@) == deposits_among(
            successful_logs(crate::primitives::receipt_views(receipts@)),
            deposit_contract,
            deposit_event_topic(),
        ),
{
    let topic = deposit_topic();
    let ghost wanted = |entry: IndexedLogView|
        is_deposit(entry.log, deposit_contract, deposit_event_topic());
    let ghost views = crate::primitives::receipt_views(receipts@);
    let mut deposits: Vec<DepositLog> = Vec::new();
    let mut seen: usize = 0;
    let mut i: usize = 0;
    let ghost mut logs: Seq<LogView> = Seq::empty();
    proof {
        assert(views.take(0) =~= Seq::<ReceiptView>::empty());
        assert(indexed(logs) =~= Seq::<IndexedLogView>::empty());
        assert(deposit_views(deposits@) =~= Seq::<IndexedLogView>::empty());
    }
    while i < receipts.len()
        invariant
            i <= receipts@.len(),
            views == crate::primitives::receipt_views(receipts@),
            successful_logs(views).len() <= usize::MAX,
            wanted == |entry: IndexedLogView|
                is_deposit(entry.log, deposit_contract, deposit_event_topic()),
            topic@ == deposit_event_topic(),
            logs == successful_logs(views.take(i as int)),
            seen == logs.len(),
            deposits@.len() <= seen,
            deposit_views(deposits@) == indexed(logs).filter(wanted),
        decreases receipts@.len() - i,
    {
        let receipt = &receipts[i];
        proof {
            assert(views.take(i + 1).drop_last() =~= views.take(i as int));
            assert(views.take(i + 1).last() == receipt@);
        }
        if receipt.status {
            let ghost before = logs;
            let mut k: usize = 0;
            proof {
                assert(receipt@.logs.take(0) =~= Seq::<LogView>::empty());
                assert(before + receipt@.logs.take(0) =~= before);
            }
            while k < receipt.logs.len()
                invariant
                    k <= receipt.logs@.len(),
                    i < receipts@.len(),
                    views == crate::primitives::receipt_views(receipts@),
                    successful_logs(views).len() <= usize::MAX,
                    views.take(i + 1).drop_last() == views.take(i as int),
                    views.take(i + 1).last() == receipt@,
                    receipt.status,
                    before == successful_logs(views.take(i as int)),
                    receipt@.logs.len() == receipt.logs@.len(),
                    wanted == |entry: IndexedLogView|
                        is_deposit(entry.log, deposit_contract, deposit_event_topic()),
                    topic@ == deposit_event_topic(),
                    logs == before + receipt@.logs.take(k as int),
                    seen == logs.len(),
                    deposits@.len() <= seen,
                    deposit_views(deposits@) == indexed(logs).filter(wanted),
                decreases receipt.logs@.len() - k,
            {
                let log = &receipt.logs[k];
                let ghost entry = IndexedLogView { index: seen as int, log: log@ };
                let ghost found = deposits@;
                proof {
                    assert(receipt@.logs[k as int] == log@);
                    assert(receipt@.logs.take(k + 1) =~= receipt@.logs.take(k as int).push(log@));
                    assert(indexed(logs.push(log@)) =~= indexed(logs).push(entry));
                    indexed(logs).lemma_filter_push(entry, wanted);
                }
                if check_deposit(log, &deposit_contract, &topic) {
                    deposits.push(DepositLog { index: seen, log: log.duplicate() });
                    proof {
                        assert(deposit_views(deposits@) =~= deposit_views(found).push(entry));
                    }
                }
                proof {
                    assert(before + receipt@.logs.take(k + 1) =~= logs.push(log@));
                    logs = logs.push(log@);
                }
                assert(seen < usize::MAX) by {
                    lemma_logs_grow(views, i + 1);
                    assert(successful_logs(views.take(i + 1)) == before + receipt@.logs);
                }
                seen = seen + 1;
                k = k + 1;
            }
            proof {
                assert(receipt@.logs.take(receipt@.logs.len() as int) =~= receipt@.logs);
            }
        }
        i = i + 1;
    }
    proof {
        assert(views.take(views.len() as int) =~= views);
    }
    deposits
}

/// The transactions of a layer 2 block: the layer 1 information transaction
/// first, then the deposits, then the transactions of the batch.
pub open spec fn payload_transactions(
    l1_info: Seq<u8>,
    deposits: Seq<Seq<u8>>,
    batch: Seq<Seq<u8>>,
) -> Seq<Seq<u8>> {
    seq![l1_info] + deposits + batch
}

/// The bytes of each transaction of `transactions`.
pub open spec fn encodings(transactions: Seq<Vec<u8>>) -> Seq<Seq<u8>> {
    transactions.map_values(|tx: Vec<u8>| tx@)
}

/// The transactions of a layer 2 block, in order: the layer 1 information
/// transaction, the deposits of the origin in layer 1 log order, and the
/// transactions of the batch.
pub fn prepare_transactions(l1_info: Vec<u8>, deposits: Vec<Vec<u8>>, batch: Vec<Vec<u8>>) -> (all:
    Vec<Vec<u8>>)
    ensures
        encodings(all@) == payload_transactions(l1_info@, encodings(deposits@), encodings(batch@)),
{
    let mut all: Vec<Vec<u8>> = Vec::new();
    all.push(l1_info);
    let mut deposits = deposits;
    let mut batch = batch;
    let ghost first = all@;
    let ghost given_deposits = deposits@;
    let ghost given_batch = batch@;
    all.append(&mut deposits);
    all.append(&mut batch);
    proof {
        assert(all@ =~= first + given_deposits + given_batch);
        assert(encodings(all@) =~= payload_transactions(
            l1_info@,
            encodings(given_deposits),
            encodings(given_batch),
        ));
    }
    all
}

/// The attributes of the layer 2 block that follows the block with the hash
/// `parent_hash`, with the transactions in their order.
pub fn build_attributes(
    parent_hash: B256,
    timestamp: u64,
    prev_randao: B256,
    fee_recipient: Address,
    gas_limit: Option<u64>,
    l1_info: Vec<u8>,
    deposits: Vec<Vec<u8>>,
    batch: Vec<Vec<u8>>,
) -> (attributes: L2PayloadAttributes)
    ensures
        attributes.parent_hash == parent_hash,
        attributes.timestamp == timestamp,
        attributes.prev_randao == prev_randao,
        attributes.fee_recipient == fee_recipient,
        attributes.gas_limit == gas_limit,
        attributes.no_tx_pool,
        encodings(attributes.transactions@) == payload_transactions(
            l1_info@,
            encodings(deposits@),
            encodings(batch@),
        ),
{
    L2PayloadAttributes {
        parent_hash,
        timestamp,
        prev_randao,
        fee_recipient,
        transactions: prepare_transactions(l1_info, deposits, batch),
        no_tx_pool: true,
        gas_limit,
    }
}

/// The first transaction of a payload is the layer 1 information
/// transaction, and the deposits follow it in their order.
pub proof fn lemma_payload_starts_with_system_transactions(
    l1_info: Seq<u8>,
    deposits: Seq<Seq<u8>>,
    batch: Seq<Seq<u8>>,
)
    ensures
        payload_transactions(l1_info, deposits, batch).len() == 1 + deposits.len() + batch.len(),
        payload_transactions(l1_info, deposits, batch)[0] == l1_info,
        payload_transactions(l1_info, deposits, batch).subrange(1, 1 + deposits.len() as int) == deposits,
        payload_transactions(l1_info, deposits, batch).skip(1 + deposits.len() as int) == batch,
{
    let all = payload_transactions(l1_info, deposits, batch);
    assert(all.subrange(1, 1 + deposits.len() as int) =~= deposits);
    assert(all.skip(1 + deposits.len() as int) =~= batch);
}

} // verus!
