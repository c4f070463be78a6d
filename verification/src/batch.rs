//! Batches: what the sequencer proposes as the next layer 2 block, and the
//! rules by which a batch is taken, put off or dropped.

use crate::primitives::BlockInfo;
use crate::primitives::L2BlockInfo;
use crate::primitives::RollupConfig;
use crate::primitives::B256;
use vstd::prelude::*;

verus! {

/// The first byte of a deposit transaction.
pub const DEPOSIT_TX_TYPE: u8 = 0x7e;

/// A batch for one layer 2 block.
#[derive(Debug, Clone, PartialEq, Eq, Default)]
pub struct SingleBatch {
    /// The hash of the layer 2 block that the batch builds on.
    pub parent_hash: B256,
    /// The number of the layer 1 origin of the batch.
    pub epoch_num: u64,
    /// The hash of the layer 1 origin of the batch.
    pub epoch_hash: B256,
    /// The time of the layer 2 block.
    pub timestamp: u64,
    /// The transactions of the layer 2 block, each in its encoded form.
    pub transactions: Vec<Vec<u8>>,
}

/// What a batch says, with its transactions as sequences of bytes.
pub struct SingleBatchView {
    pub parent_hash: B256,
    pub epoch_num: u64,
    pub epoch_hash: B256,
    pub timestamp: u64,
    pub transactions: Seq<Seq<u8>>,
}

impl View for SingleBatch {
    type V = SingleBatchView;

    open spec fn view(&self) -> SingleBatchView {
        SingleBatchView {
            parent_hash: self.parent_hash,
            epoch_num: self.epoch_num,
            epoch_hash: self.epoch_hash,
            timestamp: self.timestamp,
            transactions: self.transactions@.map_values(|tx: Vec<u8>| tx@),
        }
    }
}

/// What becomes of a batch.
#[derive(Debug, Clone, Copy, PartialEq, Eq, Hash, Structural)]
pub enum BatchValidity {
    /// The batch can never be taken; it is dropped.
    Drop,
    /// The batch is the next layer 2 block.
    Accept,
    /// More layer 1 blocks are needed to decide.
    Undecided,
    /// The batch may be taken later, once the safe head has moved on.
    Future,
}

/// Whether a transaction may stand in a batch: it is not empty, and it is no
/// deposit.
pub open spec fn batch_tx_allowed(tx: Seq<u8>) -> bool {
    tx.len() > 0 && tx[0] != DEPOSIT_TX_TYPE
}

/// Whether every transaction of the batch may stand in a batch.
pub open spec fn batch_txs_allowed(transactions: Seq<Seq<u8>>) -> bool {
    forall|i: int| 0 <= i < transactions.len() ==> batch_tx_allowed(#[trigger] transactions[i])
}

/// What becomes of `batch`, which was included in the layer 1 block
/// `inclusion_block`, on top of the safe head `l2_safe_head`, where
/// `l1_blocks` are the layer 1 blocks from the origin of the safe head's
/// epoch on.
///
/// The batch must have the time of the next block and build on the safe
/// head. It must have been included within the sequencing window of its
/// epoch. Its epoch is that of the safe head or the one after it, by number
/// and hash, and its time is not before that of its epoch. Once its time has
/// drifted beyond its epoch's by more than the allowed drift, it may hold no
/// transactions, and if it stays in its epoch, its time must be before that
/// of the next epoch.
pub open spec fn batch_validity(
    batch: SingleBatchView,
    cfg: RollupConfig,
    l1_blocks: Seq<BlockInfo>,
    l2_safe_head: L2BlockInfo,
    inclusion_block: BlockInfo,
) -> BatchValidity {
    if l1_blocks.len() == 0 {
        BatchValidity::Undecided
    } else {
        let epoch = l1_blocks[0];
        let next_timestamp = l2_safe_head.block_info.timestamp + cfg.block_time;
        if batch.timestamp > next_timestamp {
            BatchValidity::Future
        } else if batch.timestamp < next_timestamp {
            BatchValidity::Drop
        } else if batch.parent_hash != l2_safe_head.block_info.hash {
            BatchValidity::Drop
        } else if batch.epoch_num + cfg.seq_window_size < inclusion_block.number {
            BatchValidity::Drop
        } else if batch.epoch_num < epoch.number {
            BatchValidity::Drop
        } else if batch.epoch_num > epoch.number + 1 {
            BatchValidity::Drop
        } else if batch.epoch_num == epoch.number + 1 && l1_blocks.len() < 2 {
            BatchValidity::Undecided
        } else {
            let origin = if batch.epoch_num == epoch.number {
                epoch
            } else {
                l1_blocks[1]
            };
            if batch.epoch_hash != origin.hash {
                BatchValidity::Drop
            } else if batch.timestamp < origin.timestamp {
                BatchValidity::Drop
            } else if batch.timestamp > origin.timestamp + cfg.max_sequencer_drift {
                if batch.transactions.len() > 0 {
                    BatchValidity::Drop
                } else if batch.epoch_num == epoch.number && l1_blocks.len() < 2 {
                    BatchValidity::Undecided
                } else if batch.epoch_num == epoch.number && batch.timestamp
                    >= l1_blocks[1].timestamp {
                    BatchValidity::Drop
                } else {
                    BatchValidity::Accept
                }
            } else if batch_txs_allowed(batch.transactions) {
                BatchValidity::Accept
            } else {
                BatchValidity::Drop
            }
        }
    }
}

impl SingleBatch {
    /// Whether every transaction of the batch may stand in a batch.
    pub fn has_allowed_transactions(&self) -> (ok: bool)
        ensures
            ok == batch_txs_allowed(self@.transactions),
    {
        let mut i: usize = 0;
        while i < self.transactions.len()
            invariant
                i <= self.transactions@.len(),
                forall|j: int|
                    0 <= j < i ==> batch_tx_allowed((#[trigger] self.transactions@[j])@),
            decreases self.transactions@.len() - i,
        {
            let tx = &self.transactions[i];
            if tx.len() == 0 || tx[0] == DEPOSIT_TX_TYPE {
                assert(!batch_tx_allowed(self@.transactions[i as int]));
                return false;
            }
            i = i + 1;
        }
        assert forall|j: int| 0 <= j < self@.transactions.len() implies batch_tx_allowed(
            #[trigger] self@.transactions[j],
        ) by {
            assert(batch_tx_allowed((self.transactions@[j])@));
        }
        true
    }

    /// What becomes of the batch on top of the safe head `l2_safe_head`.
    pub fn check_batch(
        &self,
        cfg: &RollupConfig,
        l1_blocks: &[BlockInfo],
        l2_safe_head: &L2BlockInfo,
        inclusion_block: &BlockInfo,
    ) -> (validity: BatchValidity)
        ensures
            validity == batch_validity(self@, *cfg, l1_blocks@, *l2_safe_head, *inclusion_block),
    {
        if l1_blocks.len() == 0 {
            return BatchValidity::Undecided;
        }
        let epoch = l1_blocks[0];
        let next_timestamp = l2_safe_head.block_info.timestamp as u128 + cfg.block_time as u128;
        if self.timestamp as u128 > next_timestamp {
            return BatchValidity::Future;
        }
        if (self.timestamp as u128) < next_timestamp {
            return BatchValidity::Drop;
        }
        if !self.parent_hash.eq_word(&l2_safe_head.block_info.hash) {
            return BatchValidity::Drop;
        }
        if self.epoch_num as u128 + (cfg.seq_window_size as u128) < inclusion_block.number as u128 {
            return BatchValidity::Drop;
        }
        if self.epoch_num < epoch.number {
            return BatchValidity::Drop;
        }
        if self.epoch_num as u128 > epoch.number as u128 + 1 {
            return BatchValidity::Drop;
        }
        let stays = self.epoch_num == epoch.number;
        if !stays && l1_blocks.len() < 2 {
            return BatchValidity::Undecided;
        }
        let origin = if stays {
            epoch
        } else {
            l1_blocks[1]
        };
        if !self.epoch_hash.eq_word(&origin.hash) {
            return BatchValidity::Drop;
        }
        if self.timestamp < origin.timestamp {
            return BatchValidity::Drop;
        }
        if self.timestamp as u128 > origin.timestamp as u128 + cfg.max_sequencer_drift as u128 {
            if self.transactions.len() > 0 {
                return BatchValidity::Drop;
            }
            if stays {
                if l1_blocks.len() < 2 {
                    return BatchValidity::Undecided;
                }
                if self.timestamp >= l1_blocks[1].timestamp {
                    return BatchValidity::Drop;
                }
            }
            return BatchValidity::Accept;
        }
        if self.has_allowed_transactions() {
            BatchValidity::Accept
        } else {
            BatchValidity::Drop
        }
    }
}

/// A batch with the layer 1 block that it was included in.
#[derive(Debug, Clone, PartialEq, Eq, Default)]
pub struct BatchWithInclusionBlock {
    /// The layer 1 block that the batch was included in.
    pub inclusion_block: BlockInfo,
    /// The batch.
    pub batch: SingleBatch,
}

/// What a buffered batch says, and where it was included.
pub struct BufferedBatchView {
    pub inclusion_block: BlockInfo,
    pub batch: SingleBatchView,
}

impl View for BatchWithInclusionBlock {
    type V = BufferedBatchView;

    open spec fn view(&self) -> BufferedBatchView {
        BufferedBatchView { inclusion_block: self.inclusion_block, batch: self.batch@ }
    }
}

/// What each buffered batch says.
pub open spec fn buffer_views(buffer: Seq<BatchWithInclusionBlock>) -> Seq<BufferedBatchView> {
    buffer.map_values(|entry: BatchWithInclusionBlock| entry@)
}

/// The condition under which a buffered batch ends the search for the next
/// batch: it is taken, or nothing can be decided before more is known.
pub open spec fn settles(cfg: RollupConfig, l1_blocks: Seq<BlockInfo>, parent: L2BlockInfo) -> spec_fn(
    BufferedBatchView,
) -> bool {
    |entry: BufferedBatchView|
        {
            let validity = batch_validity(entry.batch, cfg, l1_blocks, parent, entry.inclusion_block);
            validity == BatchValidity::Accept || validity == BatchValidity::Undecided
        }
}

/// The condition under which a buffered batch is kept for later.
pub open spec fn is_future(cfg: RollupConfig, l1_blocks: Seq<BlockInfo>, parent: L2BlockInfo) -> spec_fn(
    BufferedBatchView,
) -> bool {
    |entry: BufferedBatchView|
        batch_validity(entry.batch, cfg, l1_blocks, parent, entry.inclusion_block)
            == BatchValidity::Future
}

/// Whether the buffered layer 1 blocks start at the epoch of `parent` or at
/// the one after it. If they do not, the queue must be reset.
pub open spec fn epoch_fits(epoch: BlockInfo, parent: L2BlockInfo) -> bool {
    ||| parent.l1_origin.number == epoch.number && parent.l1_origin.hash == epoch.hash
    ||| parent.l1_origin.number + 1 == epoch.number
}

/// Whether empty batches must be made for the epoch `epoch`, seen from the
/// layer 1 origin `origin`: the sequencing window of the epoch has gone by,
/// or it ends at the origin and no more data is to come from there.
pub open spec fn window_expired(
    cfg: RollupConfig,
    epoch: BlockInfo,
    origin: BlockInfo,
    out_of_data: bool,
) -> bool {
    let expiry = epoch.number + cfg.seq_window_size;
    (expiry == origin.number && out_of_data) || expiry < origin.number
}

/// The empty batch that follows `parent` in the epoch `epoch`.
pub open spec fn empty_batch(cfg: RollupConfig, epoch: BlockInfo, parent: L2BlockInfo) -> SingleBatchView {
    SingleBatchView {
        parent_hash: parent.block_info.hash,
        epoch_num: epoch.number,
        epoch_hash: epoch.hash,
        timestamp: (parent.block_info.timestamp + cfg.block_time) as u64,
        transactions: Seq::empty(),
    }
}

/// Why the queue hands out no batch.
pub open spec fn no_batch_yet() -> crate::errors::PipelineErrorKind {
    crate::errors::PipelineErrorKind::Temporary(crate::errors::PipelineError::Eof)
}

/// The queue of batches: it buffers batches with the layer 1 blocks of their
/// epochs, and hands out the next batch for the safe head.
#[derive(Debug)]
pub struct BatchQueue {
    cfg: RollupConfig,
    origin: Option<BlockInfo>,
    l1_blocks: Vec<BlockInfo>,
    batches: Vec<BatchWithInclusionBlock>,
}

impl BatchQueue {
    /// The rules of the rollup.
    pub closed spec fn config(self) -> RollupConfig {
        self.cfg
    }

    /// The layer 1 origin of the queue.
    pub closed spec fn current_origin(self) -> Option<BlockInfo> {
        self.origin
    }

    /// The layer 1 blocks from the current epoch on.
    pub closed spec fn epochs(self) -> Seq<BlockInfo> {
        self.l1_blocks@
    }

    /// The buffered batches, in the order in which they came.
    pub closed spec fn buffered(self) -> Seq<BufferedBatchView> {
        buffer_views(self.batches@)
    }

    /// A queue without origin, epochs or batches.
    pub fn new(cfg: RollupConfig) -> (queue: BatchQueue)
        ensures
            queue.config() == cfg,
            queue.current_origin() is None,
            queue.epochs().len() == 0,
            queue.buffered().len() == 0,
    {
        BatchQueue { cfg, origin: None, l1_blocks: Vec::new(), batches: Vec::new() }
    }

    /// Starts over at the layer 1 block `base`: it is the origin and the
    /// only epoch, and no batch is buffered.
    pub fn reset(&mut self, base: BlockInfo)
        ensures
            final(self).config() == old(self).config(),
            final(self).current_origin() == Some(base),
            final(self).epochs() == seq![base],
            final(self).buffered().len() == 0,
    {
        self.origin = Some(base);
        self.l1_blocks.clear();
        self.l1_blocks.push(base);
        self.batches.clear();
    }

    /// Moves the origin on to the layer 1 block `origin`, which joins the
    /// epochs.
    pub fn advance_origin(&mut self, origin: BlockInfo)
        ensures
            final(self).config() == old(self).config(),
            final(self).current_origin() == Some(origin),
            final(self).epochs() == old(self).epochs().push(origin),
            final(self).buffered() == old(self).buffered(),
    {
        self.origin = Some(origin);
        self.l1_blocks.push(origin);
    }

    /// Buffers `batch`, which was read from the current origin, unless it can
    /// be dropped at once. Without an origin no batch is taken in.
    pub fn add_batch(&mut self, batch: SingleBatch, parent: &L2BlockInfo) -> (taken: bool)
        ensures
            final(self).config() == old(self).config(),
            final(self).current_origin() == old(self).current_origin(),
            final(self).epochs() == old(self).epochs(),
            taken == (old(self).current_origin() matches Some(origin) && old(self).epochs().len() > 0
                && batch_validity(batch@, old(self).config(), old(self).epochs(), *parent, origin)
                != BatchValidity::Drop),
            final(self).buffered() == if taken {
                old(self).buffered().push(
                    BufferedBatchView {
                        inclusion_block: old(self).current_origin().unwrap(),
                        batch: batch@,
                    },
                )
            } else {
                old(self).buffered()
            },
    {
        let origin = match self.origin {
            Some(origin) => origin,
            None => {
                return false;
            },
        };
        if self.l1_blocks.len() == 0 {
            return false;
        }
        let validity = batch.check_batch(&self.cfg, self.l1_blocks.as_slice(), parent, &origin);
        match validity {
            BatchValidity::Drop => false,
            _ => {
                let ghost before = self.batches@;
                let entry = BatchWithInclusionBlock { inclusion_block: origin, batch };
                self.batches.push(entry);
                assert(buffer_views(self.batches@) =~= buffer_views(before).push(entry@));
                true
            },
        }
    }

    /// The next batch on top of the safe head `parent`.
    ///
    /// The buffered batches are gone through in the order in which they
    /// came. A batch that can never be taken is dropped; one that may be
    /// taken later is kept. The first batch that can be taken is the next
    /// batch. Where a batch cannot be decided yet, the search stops. Where no
    /// buffered batch is taken and the sequencing window of the epoch has
    /// gone by, an empty batch is made, until the time of the next epoch is
    /// reached; then the queue moves on to the next epoch.
    pub fn derive_next_batch(&mut self, out_of_data: bool, parent: &L2BlockInfo) -> (r: Result<
        SingleBatch,
        crate::errors::PipelineErrorKind,
    >)
        ensures
            final(self).config() == old(self).config(),
            final(self).current_origin() == old(self).current_origin(),
            next_batch_outcome(
                old(self).config(),
                old(self).current_origin(),
                old(self).epochs(),
                old(self).buffered(),
                out_of_data,
                *parent,
            ) == (NextBatch {
                result: match r {
                    Ok(batch) => Ok(batch@),
                    Err(e) => Err(e),
                },
                epochs: final(self).epochs(),
                buffered: final(self).buffered(),
            }),
    {
        if self.l1_blocks.len() == 0 {
            return Err(crate::errors::PipelineError::MissingOrigin.crit());
        }
        let origin = match self.origin {
            Some(origin) => origin,
            None => {
                return Err(crate::errors::PipelineError::MissingOrigin.crit());
            },
        };
        let epoch = self.l1_blocks[0];
        let same = parent.l1_origin.number == epoch.number && parent.l1_origin.hash.eq_word(
            &epoch.hash,
        );
        if !same && parent.l1_origin.number as u128 + 1 != epoch.number as u128 {
            return Err(crate::errors::PipelineErrorKind::Reset);
        }
        let ghost given = buffer_views(self.batches@);
        let ghost hit = settles(self.cfg, self.l1_blocks@, *parent);
        let ghost later = is_future(self.cfg, self.l1_blocks@, *parent);
        let mut kept: usize = 0;
        let ghost mut seen: int = 0;
        proof {
            assert(given.take(0) =~= Seq::<BufferedBatchView>::empty());
            assert(given.skip(0) =~= given);
        }
        while kept < self.batches.len()
            invariant
                self.config() == old(self).config(),
                self.current_origin() == old(self).current_origin(),
                self.epochs() == old(self).epochs(),
                self.l1_blocks@.len() > 0,
                epoch == self.l1_blocks@[0],
                self.origin == Some(origin),
                epoch_fits(epoch, *parent),
                given == old(self).buffered(),
                hit == settles(self.cfg, self.l1_blocks@, *parent),
                later == is_future(self.cfg, self.l1_blocks@, *parent),
                0 <= seen <= given.len(),
                kept <= self.batches@.len(),
                kept == given.take(seen).filter(later).len(),
                buffer_views(self.batches@) == given.take(seen).filter(later) + given.skip(seen),
                forall|j: int| 0 <= j < seen ==> !hit(#[trigger] given[j]),
            decreases given.len() - seen,
        {
            let ghost views = buffer_views(self.batches@);
            let ghost entry = given[seen];
            proof {
                assert(views[kept as int] == given.skip(seen)[0]);
                assert(self.batches@[kept as int]@ == entry);
                assert(given.take(seen + 1) =~= given.take(seen).push(entry));
                given.take(seen).lemma_filter_push(entry, later);
            }
            let validity = self.batches[kept].batch.check_batch(
                &self.cfg,
                self.l1_blocks.as_slice(),
                parent,
                &self.batches[kept].inclusion_block,
            );
            match validity {
                BatchValidity::Future => {
                    proof {
                        assert(views =~= given.take(seen + 1).filter(later) + given.skip(seen + 1));
                        seen = seen + 1;
                    }
                    kept = kept + 1;
                },
                BatchValidity::Drop => {
                    let ghost before = self.batches@;
                    let dropped = self.batches.remove(kept);
                    proof {
                        assert(self.batches@ == before.remove(kept as int));
                        assert(buffer_views(self.batches@) =~= views.remove(kept as int));
                        assert(views.remove(kept as int) =~= given.take(seen).filter(later)
                            + given.skip(seen + 1));
                        assert(buffer_views(self.batches@) =~= given.take(seen + 1).filter(later)
                            + given.skip(seen + 1));
                        seen = seen + 1;
                    }
                },
                BatchValidity::Accept => {
                    let ghost before = self.batches@;
                    let taken = self.batches.remove(kept);
                    proof {
                        assert(self.batches@ == before.remove(kept as int));
                        assert(buffer_views(self.batches@) =~= views.remove(kept as int));
                        assert(views.remove(kept as int) =~= given.take(seen).filter(later)
                            + given.skip(seen + 1));
                        assert(buffer_views(self.batches@) =~= given.take(seen).filter(later)
                            + given.skip(seen + 1));
                        crate::search::lemma_first_match(given, hit, seen);
                    }
                    return Ok(taken.batch);
                },
                BatchValidity::Undecided => {
                    proof {
                        crate::search::lemma_first_match(given, hit, seen);
                    }
                    return Err(crate::errors::PipelineError::Eof.temp());
                },
            }
        }
        proof {
            assert(seen == given.len()) by {
                if seen < given.len() {
                    assert(buffer_views(self.batches@).len() == kept + (given.len() - seen));
                }
            }
            assert(given.take(seen) =~= given);
            assert(buffer_views(self.batches@) =~= given.filter(later));
            crate::search::lemma_no_match(given, hit);
        }
        let expiry = epoch.number as u128 + self.cfg.seq_window_size as u128;
        let forced = (expiry == origin.number as u128 && out_of_data) || expiry
            < origin.number as u128;
        if !forced {
            return Err(crate::errors::PipelineError::Eof.temp());
        }
        if self.l1_blocks.len() < 2 {
            return Err(crate::errors::PipelineError::Eof.temp());
        }
        let next_epoch = self.l1_blocks[1];
        let next_timestamp = parent.block_info.timestamp as u128 + self.cfg.block_time as u128;
        let first_of_epoch = epoch.number as u128 == parent.l1_origin.number as u128 + 1;
        if next_timestamp < next_epoch.timestamp as u128 || first_of_epoch {
            if next_timestamp > u64::MAX as u128 {
                return Err(crate::errors::PipelineError::Eof.temp());
            }
            let batch = SingleBatch {
                parent_hash: parent.block_info.hash,
                epoch_num: epoch.number,
                epoch_hash: epoch.hash,
                timestamp: next_timestamp as u64,
                transactions: Vec::new(),
            };
            assert(batch@.transactions =~= Seq::<Seq<u8>>::empty());
            return Ok(batch);
        }
        let ghost before = self.l1_blocks@;
        self.l1_blocks.remove(0);
        assert(self.l1_blocks@ =~= before.skip(1));
        Err(crate::errors::PipelineError::Eof.temp())
    }
}

/// What a search for the next batch gives, and what it leaves behind.
pub struct NextBatch {
    pub result: Result<SingleBatchView, crate::errors::PipelineErrorKind>,
    pub epochs: Seq<BlockInfo>,
    pub buffered: Seq<BufferedBatchView>,
}

/// What the search for the next batch on top of `parent` gives, for a queue
/// with the given origin, epochs and buffered batches.
pub open spec fn next_batch_outcome(
    cfg: RollupConfig,
    origin: Option<BlockInfo>,
    epochs: Seq<BlockInfo>,
    buffered: Seq<BufferedBatchView>,
    out_of_data: bool,
    parent: L2BlockInfo,
) -> NextBatch {
    if epochs.len() == 0 || origin is None {
        NextBatch {
            result: Err(
                crate::errors::PipelineErrorKind::Critical(
                    crate::errors::PipelineError::MissingOrigin,
                ),
            ),
            epochs,
            buffered,
        }
    } else if !epoch_fits(epochs[0], parent) {
        NextBatch { result: Err(crate::errors::PipelineErrorKind::Reset), epochs, buffered }
    } else {
        let later = is_future(cfg, epochs, parent);
        match crate::search::first_match(buffered, settles(cfg, epochs, parent)) {
            Some(at) => {
                let entry = buffered[at];
                if batch_validity(entry.batch, cfg, epochs, parent, entry.inclusion_block)
                    == BatchValidity::Accept {
                    NextBatch {
                        result: Ok(entry.batch),
                        epochs,
                        buffered: buffered.take(at).filter(later) + buffered.skip(at + 1),
                    }
                } else {
                    NextBatch {
                        result: Err(no_batch_yet()),
                        epochs,
                        buffered: buffered.take(at).filter(later) + buffered.skip(at),
                    }
                }
            },
            None => {
                let kept = buffered.filter(later);
                let next_timestamp = parent.block_info.timestamp + cfg.block_time;
                if !window_expired(cfg, epochs[0], origin.unwrap(), out_of_data) || epochs.len()
                    < 2 {
                    NextBatch { result: Err(no_batch_yet()), epochs, buffered: kept }
                } else if next_timestamp < epochs[1].timestamp || epochs[0].number
                    == parent.l1_origin.number + 1 {
                    if next_timestamp > u64::MAX {
                        NextBatch { result: Err(no_batch_yet()), epochs, buffered: kept }
                    } else {
                        NextBatch {
                            result: Ok(empty_batch(cfg, epochs[0], parent)),
                            epochs,
                            buffered: kept,
                        }
                    }
                } else {
                    NextBatch { result: Err(no_batch_yet()), epochs: epochs.skip(1), buffered: kept }
                }
            },
        }
    }
}

} // verus!
