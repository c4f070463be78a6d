//! The second stage of the derivation pipeline: for each layer 1 block that
//! the traversal hands on, it opens the block's data and hands it out piece
//! by piece.

use crate::errors::PipelineError;
use crate::errors::PipelineErrorKind;
use crate::l1_traversal::advance_outcome;
use crate::l1_traversal::next_asked;
use crate::l1_traversal::L1Traversal;
use crate::primitives::BlockInfo;
use crate::primitives::SystemConfig;
use crate::traits::ChainProvider;
use crate::traits::DataAvailabilityProvider;
use crate::traits::DataIterator;
use crate::traits::FrameQueueProvider;
use crate::traits::OriginAdvancer;
use crate::traits::OriginProvider;
use crate::traits::ResettableStage;
use vstd::prelude::*;

verus! {

/// The retrieval of data from layer 1.
pub struct L1Retrieval<DAP: DataAvailabilityProvider, P> {
    prev: L1Traversal<P>,
    provider: DAP,
    data: Option<DAP::DataIter>,
}

/// What a call for the next piece of data leaves behind.
pub struct Retrieved<T> {
    /// What the call returns.
    pub result: Result<T, PipelineErrorKind>,
    /// Whether data is open after the call.
    pub open: bool,
    /// Whether the block at the cursor was handed on after the call.
    pub handed_on: bool,
}

/// The error with which an opening failed, if it did.
pub open spec fn open_error<S>(opened: Result<S, PipelineErrorKind>) -> Option<PipelineErrorKind> {
    match opened {
        Ok(_) => None,
        Err(e) => Some(e),
    }
}

/// Whether the stage must open data: none is open, and the traversal has a
/// block that it has yet to hand on.
pub open spec fn must_open(was_open: bool, cursor: Option<BlockInfo>, handed_on: bool) -> bool {
    !was_open && !handed_on && cursor is Some
}

/// Whether the stage reads from its source: data was open, or was opened.
pub open spec fn must_read(
    was_open: bool,
    cursor: Option<BlockInfo>,
    handed_on: bool,
    open_error: Option<PipelineErrorKind>,
) -> bool {
    was_open || (must_open(was_open, cursor, handed_on) && open_error is None)
}

/// Whether a source that handed out `item` stays open: it does unless it is
/// at its end.
pub open spec fn keeps_open<T>(item: Result<T, PipelineErrorKind>) -> bool {
    !(item matches Err(PipelineErrorKind::Temporary(PipelineError::Eof)))
}

/// What a call for the next piece of data gives and leaves behind, where the
/// opening of the data failed with `open_error`, if it was tried and failed,
/// and the source handed out `item`, if it was read. A block that was handed
/// on already leaves nothing to open; a traversal without a block is a
/// critical fault.
pub open spec fn retrieved<T>(
    was_open: bool,
    cursor: Option<BlockInfo>,
    handed_on: bool,
    open_error: Option<PipelineErrorKind>,
    item: Result<T, PipelineErrorKind>,
) -> Retrieved<T> {
    if was_open {
        Retrieved { result: item, open: keeps_open(item), handed_on }
    } else if handed_on {
        Retrieved {
            result: Err(PipelineErrorKind::Temporary(PipelineError::Eof)),
            open: false,
            handed_on: true,
        }
    } else {
        match cursor {
            None => Retrieved {
                result: Err(PipelineErrorKind::Critical(PipelineError::MissingOrigin)),
                open: false,
                handed_on: true,
            },
            Some(_) => match open_error {
                Some(e) => Retrieved { result: Err(e), open: false, handed_on: true },
                None => Retrieved { result: item, open: keeps_open(item), handed_on: true },
            },
        }
    }
}

/// Whether a source that handed out `item` stays open.
pub fn stays_open<T>(item: &Result<T, PipelineErrorKind>) -> (open: bool)
    ensures
        open == keeps_open(*item),
{
    match item {
        Err(PipelineErrorKind::Temporary(PipelineError::Eof)) => false,
        _ => true,
    }
}

impl<DAP: DataAvailabilityProvider, P: ChainProvider> L1Retrieval<DAP, P> {
    /// The traversal that feeds the retrieval.
    pub closed spec fn traversal(self) -> L1Traversal<P> {
        self.prev
    }

    /// The provider that opens the data of a block.
    pub closed spec fn opener(self) -> DAP {
        self.provider
    }

    /// Whether the data of a block is open.
    pub closed spec fn is_open(self) -> bool {
        self.data is Some
    }

    /// A retrieval behind `prev` that opens data with `provider`. No data is
    /// open yet.
    pub fn new(prev: L1Traversal<P>, provider: DAP) -> (stage: L1Retrieval<DAP, P>)
        ensures
            stage.traversal() == prev,
            stage.opener() == provider,
            !stage.is_open(),
    {
        L1Retrieval { prev, provider, data: None }
    }
}

impl<DAP: DataAvailabilityProvider, P: ChainProvider> FrameQueueProvider for L1Retrieval<DAP, P> {
    type Item = DAP::Item;

    /// The next piece of data. Where no data is open, the block that the
    /// traversal hands on is opened first. When the open data has come to its
    /// end, it is closed, so that the next call opens the next block. The
    /// outcome is that of `retrieved`, over what the provider answered to the
    /// opening and what the source handed out.
    fn next_data(&mut self) -> (r: Result<DAP::Item, PipelineErrorKind>)
        ensures
            final(self).traversal().cursor() == old(self).traversal().cursor(),
            final(self).traversal().config() == old(self).traversal().config(),
            final(self).opener() == old(self).opener(),
            exists|
                opened: Result<DAP::DataIter, PipelineErrorKind>,
                item: Result<DAP::Item, PipelineErrorKind>,
            |
                (must_open(
                    old(self).is_open(),
                    old(self).traversal().cursor(),
                    old(self).traversal().handed_on(),
                ) ==> call_ensures(
                    DAP::open_data,
                    (&old(self).opener(), &old(self).traversal().cursor().unwrap()),
                    opened,
                )) && (must_read(
                    old(self).is_open(),
                    old(self).traversal().cursor(),
                    old(self).traversal().handed_on(),
                    open_error(opened),
                ) ==> exists|source: &mut DAP::DataIter| #[trigger]
                    call_ensures(<DAP::DataIter as DataIterator>::next, (source,), item))
                    && #[trigger] retrieved(
                    old(self).is_open(),
                    old(self).traversal().cursor(),
                    old(self).traversal().handed_on(),
                    open_error(opened),
                    item,
                ) == (Retrieved {
                    result: r,
                    open: final(self).is_open(),
                    handed_on: final(self).traversal().handed_on(),
                }),
            r is Ok ==> final(self).is_open(),
            r == Err::<DAP::Item, PipelineErrorKind>(
                PipelineErrorKind::Temporary(PipelineError::Eof),
            ) ==> !final(self).is_open(),
            !old(self).is_open() && old(self).traversal().handed_on() ==> r == Err::<
                DAP::Item,
                PipelineErrorKind,
            >(PipelineErrorKind::Temporary(PipelineError::Eof)),
            !old(self).is_open() && old(self).traversal().cursor() is None ==> r is Err,
    {
        let ghost was_open = self.is_open();
        let ghost cursor = self.traversal().cursor();
        let ghost handed_on = self.traversal().handed_on();
        let ghost mut opened_as: Option<Result<DAP::DataIter, PipelineErrorKind>> = None;
        if self.data.is_none() {
            let next = match self.prev.next_l1_block() {
                Ok(next) => next,
                Err(e) => {
                    assert(retrieved::<DAP::Item>(
                        was_open,
                        cursor,
                        handed_on,
                        open_error::<DAP::DataIter>(Err(e)),
                        Err(e),
                    ) == (Retrieved {
                        result: Err::<DAP::Item, PipelineErrorKind>(e),
                        open: false,
                        handed_on: true,
                    }));
                    return Err(e);
                },
            };
            let block = match next {
                Some(block) => block,
                None => {
                    let e = PipelineError::MissingOrigin.crit();
                    assert(retrieved::<DAP::Item>(
                        was_open,
                        cursor,
                        handed_on,
                        open_error::<DAP::DataIter>(Err(e)),
                        Err(e),
                    ) == (Retrieved {
                        result: Err::<DAP::Item, PipelineErrorKind>(e),
                        open: false,
                        handed_on: true,
                    }));
                    return Err(e);
                },
            };
            let answer = self.provider.open_data(&block);
            proof {
                opened_as = Some(answer);
                assert(call_ensures(DAP::open_data, (&self.opener(), &block), answer));
            }
            let opened = match answer {
                Ok(opened) => opened,
                Err(e) => {
                    assert(retrieved::<DAP::Item>(
                        was_open,
                        cursor,
                        handed_on,
                        open_error(answer),
                        Err(e),
                    ) == (Retrieved {
                        result: Err::<DAP::Item, PipelineErrorKind>(e),
                        open: false,
                        handed_on: true,
                    }));
                    return Err(e);
                },
            };
            self.data = Some(opened);
        }
        let item = match &mut self.data {
            Some(iter) => iter.next(),
            None => Err(PipelineError::Eof.temp()),
        };
        let keeps_open = stays_open(&item);
        if !keeps_open {
            self.data = None;
        }
        proof {
            let opened = match opened_as {
                Some(answer) => answer,
                None => arbitrary(),
            };
            assert(retrieved(was_open, cursor, handed_on, open_error(opened), item) == (Retrieved {
                result: item,
                open: keeps_open,
                handed_on: self.traversal().handed_on(),
            }));
        }
        item
    }
}

impl<DAP: DataAvailabilityProvider, P: ChainProvider> OriginProvider for L1Retrieval<DAP, P> {
    /// The block at the traversal's cursor.
    fn origin(&self) -> (origin: Option<BlockInfo>)
        ensures
            origin == self.traversal().cursor(),
    {
        self.prev.origin()
    }
}

impl<DAP: DataAvailabilityProvider, P: ChainProvider> OriginAdvancer for L1Retrieval<DAP, P> {
    /// Moves the traversal's cursor to the next block, as the traversal does
    /// on the answer of its provider. Open data stays open.
    fn advance_origin(&mut self) -> (r: Result<(), PipelineErrorKind>)
        ensures
            final(self).is_open() == old(self).is_open(),
            final(self).traversal().config() == old(self).traversal().config(),
            exists|answer: Option<BlockInfo>|
                next_asked::<P>(old(self).traversal().cursor(), answer) && #[trigger] advance_outcome(
                    old(self).traversal().cursor(),
                    old(self).traversal().handed_on(),
                    answer,
                    r,
                    final(self).traversal().cursor(),
                    final(self).traversal().handed_on(),
                ),
            match r {
                Ok(_) => old(self).traversal().cursor() matches Some(prev) && final(self).traversal().cursor() matches Some(next) && crate::l1_traversal::succeeds(
                    next,
                    prev,
                ),
                Err(_) => final(self).traversal().cursor() == old(self).traversal().cursor(),
            },
    {
        self.prev.advance_origin()
    }
}

impl<DAP: DataAvailabilityProvider, P: ChainProvider> ResettableStage for L1Retrieval<DAP, P> {
    /// Resets the traversal to `base` and `cfg`, and closes the open data.
    fn reset(&mut self, base: BlockInfo, cfg: &SystemConfig) -> (r: Result<(), PipelineErrorKind>)
        ensures
            r is Ok,
            final(self).traversal().cursor() == Some(base),
            final(self).traversal().config() == *cfg,
            !final(self).traversal().handed_on(),
            !final(self).is_open(),
    {
        let reset = self.prev.reset(base, cfg);
        self.data = None;
        reset
    }
}

} // verus!
