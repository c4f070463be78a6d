//! The first stage of the derivation pipeline: it walks the layer 1 chain
//! one block at a time and hands each block on once.

use crate::errors::PipelineError;
use crate::errors::PipelineErrorKind;
use crate::primitives::BlockInfo;
use crate::primitives::SystemConfig;
use crate::traits::ChainProvider;
use crate::traits::OriginAdvancer;
use crate::traits::OriginProvider;
use crate::traits::ResettableStage;
use vstd::prelude::*;

verus! {

/// The layer 1 cursor of the pipeline, with the system configuration that is
/// in force at it.
#[derive(Debug)]
pub struct L1Traversal<P> {
    block: Option<BlockInfo>,
    data_source: P,
    done: bool,
    system_config: SystemConfig,
}

/// `next` is the block right after `prev`: it has the next number and names
/// `prev` as its parent.
pub open spec fn succeeds(next: BlockInfo, prev: BlockInfo) -> bool {
    &&& next.number == prev.number + 1
    &&& next.parent_hash == prev.hash
}

/// Where the cursor goes from `cursor` when the provider answers the request
/// for the block with the next number with `answer`, or with nothing where it
/// fails. Without a cursor, or at the last number, there is no next block. A
/// block that does not name the block at the cursor as its parent shows a
/// reorganisation; one with another number than the next is refused.
pub open spec fn advanced(cursor: Option<BlockInfo>, answer: Option<BlockInfo>) -> Result<
    BlockInfo,
    PipelineErrorKind,
> {
    match cursor {
        None => Err(PipelineErrorKind::Temporary(PipelineError::Eof)),
        Some(block) => if block.number == u64::MAX {
            Err(PipelineErrorKind::Temporary(PipelineError::Eof))
        } else {
            match answer {
                None => Err(PipelineErrorKind::Temporary(PipelineError::Provider)),
                Some(next) => if next.parent_hash != block.hash {
                    Err(PipelineErrorKind::Reset)
                } else if next.number != block.number + 1 {
                    Err(PipelineErrorKind::Critical(PipelineError::Provider))
                } else {
                    Ok(next)
                },
            }
        },
    }
}

/// Whether a stage that stood at `cursor` has moved as the answer `answer`
/// asks: on to the next block, which is yet to be handed on, or not at all,
/// with the error as the result.
pub open spec fn advance_outcome(
    cursor: Option<BlockInfo>,
    handed_on: bool,
    answer: Option<BlockInfo>,
    result: Result<(), PipelineErrorKind>,
    cursor_after: Option<BlockInfo>,
    handed_on_after: bool,
) -> bool {
    match advanced(cursor, answer) {
        Ok(next) => result is Ok && cursor_after == Some(next) && !handed_on_after,
        Err(kind) => result == Err::<(), PipelineErrorKind>(kind) && cursor_after == cursor
            && handed_on_after == handed_on,
    }
}

/// What the stage makes of what the provider gave: the block, or nothing
/// where the provider failed.
pub open spec fn answer_of<E>(asked: Result<BlockInfo, E>) -> Option<BlockInfo> {
    match asked {
        Ok(next) => Some(next),
        Err(_) => None,
    }
}

/// Whether `answer` is what the provider can have given to the request for
/// the block with the number `number`.
pub open spec fn block_asked<P: ChainProvider>(number: u64, answer: Option<BlockInfo>) -> bool {
    exists|p: &mut P, asked: Result<BlockInfo, P::Error>| #[trigger]
        call_ensures(P::block_info_by_number, (p, number), asked) && answer == answer_of(asked)
}

/// Whether `answer` is the answer for a stage that stands at `cursor`: what
/// the provider gave to the request for the block with the number after the
/// cursor's. Without a cursor, or at the last number, the provider is not
/// asked.
pub open spec fn next_asked<P: ChainProvider>(
    cursor: Option<BlockInfo>,
    answer: Option<BlockInfo>,
) -> bool {
    match cursor {
        Some(block) => block.number < u64::MAX ==> block_asked::<P>(
            (block.number + 1) as u64,
            answer,
        ),
        None => true,
    }
}

/// Where the cursor goes from `cursor` when the provider answers the request
/// for the block with the next number with `answer`.
pub fn advance_cursor(cursor: Option<BlockInfo>, answer: Option<BlockInfo>) -> (r: Result<
    BlockInfo,
    PipelineErrorKind,
>)
    ensures
        r == advanced(cursor, answer),
{
    let block = match cursor {
        Some(block) => block,
        None => {
            return Err(PipelineError::Eof.temp());
        },
    };
    if block.number == u64::MAX {
        return Err(PipelineError::Eof.temp());
    }
    let next = match answer {
        Some(next) => next,
        None => {
            return Err(PipelineError::Provider.temp());
        },
    };
    if !block.hash.eq_word(&next.parent_hash) {
        return Err(PipelineErrorKind::Reset);
    }
    if next.number != block.number + 1 {
        return Err(PipelineError::Provider.crit());
    }
    Ok(next)
}

impl<P: ChainProvider> L1Traversal<P> {
    /// The block that the cursor stands at.
    pub closed spec fn cursor(self) -> Option<BlockInfo> {
        self.block
    }

    /// Whether the block at the cursor was handed on already.
    pub closed spec fn handed_on(self) -> bool {
        self.done
    }

    /// The system configuration that is in force at the cursor.
    pub closed spec fn config(self) -> SystemConfig {
        self.system_config
    }

    /// A traversal over `data_source` that stands at the block without a
    /// number or hash, and is yet to hand it on. A reset puts it at its
    /// origin.
    pub fn new(data_source: P) -> (stage: L1Traversal<P>)
        ensures
            stage.cursor() matches Some(block) && block.number == 0 && block.timestamp == 0
                && block.hash@ == Seq::new(32, |i: int| 0u8) && block.parent_hash@ == Seq::new(
                32,
                |i: int| 0u8,
            ),
            !stage.handed_on(),
            stage.config().batcher_address@ == Seq::new(20, |i: int| 0u8),
            stage.config().overhead@ == Seq::new(32, |i: int| 0u8),
            stage.config().scalar@ == Seq::new(32, |i: int| 0u8),
            stage.config().gas_limit == 0,
    {
        let zero = crate::primitives::B256::zero();
        L1Traversal {
            block: Some(BlockInfo { hash: zero, number: 0, parent_hash: zero, timestamp: 0 }),
            data_source,
            done: false,
            system_config: SystemConfig {
                batcher_address: crate::primitives::Address::zero(),
                overhead: zero,
                scalar: zero,
                gas_limit: 0,
            },
        }
    }

    /// The system configuration that is in force at the cursor.
    pub fn system_config(&self) -> (config: SystemConfig)
        ensures
            config == self.config(),
    {
        self.system_config
    }

    /// The block at the cursor, the first time that it is asked for; the end
    /// of data after that, until the cursor moves.
    pub fn next_l1_block(&mut self) -> (r: Result<Option<BlockInfo>, PipelineErrorKind>)
        ensures
            final(self).cursor() == old(self).cursor(),
            final(self).config() == old(self).config(),
            final(self).handed_on(),
            r == if old(self).handed_on() {
                Err::<Option<BlockInfo>, PipelineErrorKind>(
                    PipelineErrorKind::Temporary(PipelineError::Eof),
                )
            } else {
                Ok::<Option<BlockInfo>, PipelineErrorKind>(old(self).cursor())
            },
    {
        if !self.done {
            self.done = true;
            Ok(self.block)
        } else {
            Err(PipelineError::Eof.temp())
        }
    }
}

impl<P: ChainProvider> OriginProvider for L1Traversal<P> {
    /// The block at the cursor.
    fn origin(&self) -> (origin: Option<BlockInfo>)
        ensures
            origin == self.cursor(),
    {
        self.block
    }
}

impl<P: ChainProvider> OriginAdvancer for L1Traversal<P> {
    /// Moves the cursor to the next block of the chain. The provider is asked
    /// for the block with the next number. A block that does not name the
    /// block at the cursor as its parent shows a reorganisation, and the
    /// pipeline must be reset. The cursor never moves back: it goes on by one
    /// block or stays.
    fn advance_origin(&mut self) -> (r: Result<(), PipelineErrorKind>)
        ensures
            final(self).config() == old(self).config(),
            exists|answer: Option<BlockInfo>|
                next_asked::<P>(old(self).cursor(), answer) && #[trigger] advance_outcome(
                    old(self).cursor(),
                    old(self).handed_on(),
                    answer,
                    r,
                    final(self).cursor(),
                    final(self).handed_on(),
                ),
            match r {
                Ok(_) => old(self).cursor() matches Some(prev) && final(self).cursor() matches Some(
                    next,
                ) && succeeds(next, prev) && !final(self).handed_on(),
                Err(kind) => final(self).cursor() == old(self).cursor() && final(self).handed_on()
                    == old(self).handed_on() && (old(self).cursor() is None ==> kind
                    == PipelineErrorKind::Temporary(PipelineError::Eof)),
            },
    {
        let answer = match self.block {
            Some(block) => {
                if block.number == u64::MAX {
                    None
                } else {
                    let asked = self.data_source.block_info_by_number(block.number + 1);
                    let answer = match asked {
                        Ok(next) => Some(next),
                        Err(_) => None,
                    };
                    assert(block_asked::<P>((block.number + 1) as u64, answer)) by {
                        assert(answer == answer_of(asked));
                    }
                    answer
                }
            },
            None => None,
        };
        assert(next_asked::<P>(old(self).cursor(), answer));
        match advance_cursor(self.block, answer) {
            Ok(next) => {
                self.block = Some(next);
                self.done = false;
                assert(advance_outcome(
                    old(self).cursor(),
                    old(self).handed_on(),
                    answer,
                    Ok(()),
                    self.cursor(),
                    self.handed_on(),
                ));
                Ok(())
            },
            Err(kind) => {
                assert(advance_outcome(
                    old(self).cursor(),
                    old(self).handed_on(),
                    answer,
                    Err(kind),
                    self.cursor(),
                    self.handed_on(),
                ));
                Err(kind)
            },
        }
    }
}

impl<P: ChainProvider> ResettableStage for L1Traversal<P> {
    /// Puts the cursor at `base` and the system configuration `cfg` in force,
    /// in one step.
    fn reset(&mut self, base: BlockInfo, cfg: &SystemConfig) -> (r: Result<(), PipelineErrorKind>)
        ensures
            r is Ok,
            final(self).cursor() == Some(base),
            final(self).config() == *cfg,
            !final(self).handed_on(),
    {
        self.block = Some(base);
        self.done = false;
        self.system_config = *cfg;
        Ok(())
    }
}

} // verus!
