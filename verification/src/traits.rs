//! What the pipeline asks of its surroundings: chain data, blobs, and the
//! stages that feed one another.

use crate::errors::PipelineErrorKind;
use crate::header::Header;
use crate::primitives::Blob;
use crate::primitives::BlockInfo;
use crate::primitives::IndexedBlobHash;
use crate::primitives::L2BlockInfo;
use crate::primitives::OpBlock;
use crate::primitives::Receipt;
use crate::primitives::RollupConfig;
use crate::primitives::SystemConfig;
use crate::primitives::TxEnvelope;
use crate::primitives::B256;
use vstd::prelude::*;

verus! {

/// Layer 1 chain data.
pub trait ChainProvider {
    /// Why a request failed.
    type Error;

    /// The header with the hash `hash`.
    fn header_by_hash(&mut self, hash: B256) -> Result<Header, Self::Error>;

    /// The block with the number `number`.
    fn block_info_by_number(&mut self, number: u64) -> Result<BlockInfo, Self::Error>;

    /// The receipts of the block with the hash `hash`.
    fn receipts_by_hash(&mut self, hash: B256) -> Result<Vec<Receipt>, Self::Error>;

    /// The block with the hash `hash`, and its transactions.
    fn block_info_and_transactions_by_hash(&mut self, hash: B256) -> Result<
        (BlockInfo, Vec<TxEnvelope>),
        Self::Error,
    >;
}

/// Layer 2 chain data.
pub trait L2ChainProvider {
    /// Why a request failed.
    type Error;

    /// The layer 2 block with the number `number`.
    fn l2_block_info_by_number(&mut self, number: u64) -> Result<L2BlockInfo, Self::Error>;

    /// The whole layer 2 block with the number `number`.
    fn block_by_number(&mut self, number: u64) -> Result<OpBlock, Self::Error>;

    /// The system configuration at the layer 2 block with the number `number`.
    fn system_config_by_number(
        &mut self,
        number: u64,
        rollup_config: &RollupConfig,
    ) -> Result<SystemConfig, Self::Error>;
}

/// Blobs of the beacon chain.
pub trait BlobProvider {
    /// Why a request failed.
    type Error;

    /// The blobs of the block `block_ref` with the hashes `blob_hashes`.
    fn get_blobs(&mut self, block_ref: &BlockInfo, blob_hashes: &[IndexedBlobHash]) -> Result<
        Vec<Blob>,
        Self::Error,
    >;
}

/// A source of items that may run dry for a while.
pub trait DataIterator {
    /// What the source hands out.
    type Item;

    /// The next item.
    fn next(&mut self) -> Result<Self::Item, PipelineErrorKind>;
}

/// Opens the data of a layer 1 block.
pub trait DataAvailabilityProvider {
    /// What the data is made of.
    type Item;

    /// The source that the data comes from.
    type DataIter: DataIterator<Item = Self::Item>;

    /// The data of the block `block_ref`.
    fn open_data(&self, block_ref: &BlockInfo) -> Result<Self::DataIter, PipelineErrorKind>;
}

/// A stage that knows its layer 1 origin.
pub trait OriginProvider {
    /// The origin, once there is one.
    fn origin(&self) -> Option<BlockInfo>;
}

/// A stage that can move on to the next layer 1 origin.
pub trait OriginAdvancer {
    /// Moves on to the next origin.
    fn advance_origin(&mut self) -> Result<(), PipelineErrorKind>;
}

/// A stage that can start over.
pub trait ResettableStage {
    /// Starts over at `base` with the system configuration `cfg`.
    fn reset(&mut self, base: BlockInfo, cfg: &SystemConfig) -> Result<(), PipelineErrorKind>;
}

/// What feeds the frame queue.
pub trait FrameQueueProvider {
    /// What the provider hands out.
    type Item;

    /// The next piece of data.
    fn next_data(&mut self) -> Result<Self::Item, PipelineErrorKind>;
}

} // verus!
