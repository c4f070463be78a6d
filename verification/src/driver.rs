//! The driver of the derivation pipeline: it steps the pipeline until the
//! payload of the disputed block comes out, and decides after each step
//! whether to go on, to reset or to give up.

use crate::errors::PipelineError;
use crate::errors::PipelineErrorKind;
use crate::header::Sealed;
use crate::primitives::BlockInfo;
use crate::primitives::L2AttributesWithParent;
use crate::primitives::L2BlockInfo;
use crate::primitives::SystemConfig;
use crate::traits::OriginProvider;
use vstd::prelude::*;

verus! {

/// What a step of the pipeline did.
#[derive(Debug, Clone, Copy, PartialEq, Eq, Structural)]
pub enum StepResult {
    /// Attributes were prepared.
    PreparedAttributes,
    /// The layer 1 origin moved on.
    AdvancedOrigin,
    /// The layer 1 origin could not move on.
    OriginAdvanceErr(PipelineErrorKind),
    /// The step failed.
    StepFailed(PipelineErrorKind),
}

/// A derivation pipeline.
pub trait Pipeline: OriginProvider {
    /// The attributes that are ready, if any; they are handed out once.
    fn next(&mut self) -> Option<L2AttributesWithParent>;

    /// One step of the derivation on top of the layer 2 block `cursor`.
    fn step(&mut self, cursor: L2BlockInfo) -> StepResult;

    /// Starts every stage over at `origin` with the system configuration
    /// `system_config`.
    fn reset(&mut self, origin: BlockInfo, system_config: &SystemConfig) -> Result<
        (),
        PipelineErrorKind,
    >;
}

/// What the driver does after a step that left no attributes ready.
#[derive(Debug, Clone, Copy, PartialEq, Eq, Structural)]
pub enum Decision {
    /// Step again: more data is pulled from layer 1.
    Continue,
    /// Reset the pipeline to the last safe origin and system configuration.
    Reset,
    /// Give up for the given reason.
    Abort(PipelineErrorKind),
}

/// Why an error of the given heaviness makes the driver do what it does:
/// an error that may pass lets it go on, a reset makes it reset, and a
/// critical error ends the run.
pub open spec fn decision_for_error(kind: PipelineErrorKind) -> Decision {
    match kind {
        PipelineErrorKind::Temporary(_) => Decision::Continue,
        PipelineErrorKind::Reset => Decision::Reset,
        PipelineErrorKind::Critical(_) => Decision::Abort(kind),
    }
}

/// What the driver does after a step with the result `result` that left no
/// attributes ready. The end of the layer 1 data ends the run: the disputed
/// block cannot be produced any more.
pub open spec fn decision_for(result: StepResult) -> Decision {
    match result {
        StepResult::PreparedAttributes => Decision::Continue,
        StepResult::AdvancedOrigin => Decision::Continue,
        StepResult::OriginAdvanceErr(PipelineErrorKind::Temporary(PipelineError::Eof)) => {
            Decision::Abort(PipelineErrorKind::Temporary(PipelineError::Eof))
        },
        StepResult::OriginAdvanceErr(kind) => decision_for_error(kind),
        StepResult::StepFailed(kind) => decision_for_error(kind),
    }
}

/// What the driver does after a step with the result `result` that left no
/// attributes ready.
pub fn decide(result: StepResult) -> (decision: Decision)
    ensures
        decision == decision_for(result),
{
    let kind = match result {
        StepResult::PreparedAttributes => {
            return Decision::Continue;
        },
        StepResult::AdvancedOrigin => {
            return Decision::Continue;
        },
        StepResult::OriginAdvanceErr(kind) => {
            match kind {
                PipelineErrorKind::Temporary(PipelineError::Eof) => {
                    return Decision::Abort(kind);
                },
                _ => {},
            }
            kind
        },
        StepResult::StepFailed(kind) => kind,
    };
    match kind {
        PipelineErrorKind::Temporary(_) => Decision::Continue,
        PipelineErrorKind::Reset => Decision::Reset,
        PipelineErrorKind::Critical(_) => Decision::Abort(kind),
    }
}

/// The most steps that a run takes for the payload of one block.
pub const MAX_STEPS: u64 = 4_294_967_296;

/// What the pipeline delivered in one round of the driver: the payload that
/// was ready, if any, the result of the step, and the result of the reset.
/// The step counts where no payload was ready, and the reset where the step
/// asked for one.
pub struct Round {
    /// The payload that was ready, if any.
    pub ready: Option<L2AttributesWithParent>,
    /// What the step did.
    pub stepped: StepResult,
    /// What the reset gave.
    pub reset: Result<(), PipelineErrorKind>,
}

/// What becomes of a payload that the pipeline has ready: it is the result if
/// it follows the safe head.
pub open spec fn accepted(payload: L2AttributesWithParent, safe_head: L2BlockInfo) -> Result<
    L2AttributesWithParent,
    DriverError,
> {
    if payload.parent == safe_head {
        Ok(payload)
    } else {
        Err(DriverError::UnexpectedPayload)
    }
}

/// Why the run ends after a reset with the result `result`, if it does: a
/// reset that fails for good, or for want of layer 1 data, ends the run.
pub open spec fn reset_failure(result: Result<(), PipelineErrorKind>) -> Option<DriverError> {
    match result {
        Ok(_) => None,
        Err(PipelineErrorKind::Temporary(PipelineError::Eof)) => Some(
            DriverError::Pipeline(PipelineErrorKind::Temporary(PipelineError::Eof)),
        ),
        Err(PipelineErrorKind::Temporary(_)) => None,
        Err(kind) => Some(DriverError::Pipeline(kind)),
    }
}

/// The result with which a round ends the run; `None` where the driver goes
/// on to the next round.
pub open spec fn round_end(round: Round, safe_head: L2BlockInfo) -> Option<
    Result<L2AttributesWithParent, DriverError>,
> {
    match round.ready {
        Some(payload) => Some(accepted(payload, safe_head)),
        None => match decision_for(round.stepped) {
            Decision::Continue => None,
            Decision::Reset => match reset_failure(round.reset) {
                Some(e) => Some(Err(e)),
                None => None,
            },
            Decision::Abort(kind) => Some(Err(DriverError::Pipeline(kind))),
        },
    }
}

/// The result with which the last round of a run ends it. Where the steps
/// are used up, a round without a payload ends the run before a step.
pub open spec fn last_round_end(round: Round, safe_head: L2BlockInfo, out_of_steps: bool) -> Option<
    Result<L2AttributesWithParent, DriverError>,
> {
    if out_of_steps && round.ready is None {
        Some(Err(DriverError::OutOfSteps))
    } else {
        round_end(round, safe_head)
    }
}

/// Whether `rounds` are a run of the driver with the result `r`: all rounds
/// but the last went on, there is one more round than steps were taken, at
/// most `max_steps`, and the last round ends the run with `r`.
pub open spec fn is_run(
    rounds: Seq<Round>,
    safe_head: L2BlockInfo,
    max_steps: u64,
    r: Result<L2AttributesWithParent, DriverError>,
) -> bool {
    &&& 1 <= rounds.len() <= max_steps + 1
    &&& forall|i: int| 0 <= i < rounds.len() - 1 ==> round_end(#[trigger] rounds[i], safe_head) is None
    &&& last_round_end(rounds.last(), safe_head, rounds.len() - 1 == max_steps) == Some(r)
}

/// Whether the pipeline can have delivered `round`: the payload on the
/// request for what is ready, the result of the step on top of the safe
/// head, and the result of the reset to the safe point. The step is taken
/// where no payload was ready and steps are left, and the reset where the
/// step asked for one.
pub open spec fn round_made<P: Pipeline>(
    round: Round,
    safe_head: L2BlockInfo,
    safe_point: (BlockInfo, SystemConfig),
    steps_left: bool,
) -> bool {
    &&& exists|p: &mut P| #[trigger] call_ensures(P::next, (p,), round.ready)
    &&& round.ready is None && steps_left ==> exists|p: &mut P| #[trigger]
        call_ensures(P::step, (p, safe_head), round.stepped)
    &&& round.ready is None && steps_left && decision_for(round.stepped) == Decision::Reset
        ==> exists|p: &mut P| #[trigger]
        call_ensures(P::reset, (p, safe_point.0, &safe_point.1), round.reset)
}

/// A run ends with the payload that the pipeline has ready, if that payload
/// follows the safe head, and with an error if it does not.
pub proof fn lemma_run_with_payload(
    rounds: Seq<Round>,
    safe_head: L2BlockInfo,
    max_steps: u64,
    r: Result<L2AttributesWithParent, DriverError>,
)
    requires
        is_run(rounds, safe_head, max_steps, r),
    ensures
        forall|i: int| 0 <= i < rounds.len() - 1 ==> (#[trigger] rounds[i]).ready is None,
        rounds.last().ready matches Some(payload) ==> r == accepted(payload, safe_head),
        r is Ok ==> rounds.last().ready == Some(r->Ok_0) && r->Ok_0.parent == safe_head,
        r == Err::<L2AttributesWithParent, DriverError>(DriverError::UnexpectedPayload)
            ==> rounds.last().ready is Some,
{
    assert forall|i: int| 0 <= i < rounds.len() - 1 implies (#[trigger] rounds[i]).ready is None by {
        assert(round_end(rounds[i], safe_head) is None);
    }
}

/// A run ends for want of steps only where `max_steps` steps were taken,
/// none of them ended the run, and no payload is ready after the last.
pub proof fn lemma_run_out_of_steps(
    rounds: Seq<Round>,
    safe_head: L2BlockInfo,
    max_steps: u64,
    r: Result<L2AttributesWithParent, DriverError>,
)
    requires
        is_run(rounds, safe_head, max_steps, r),
    ensures
        r == Err::<L2AttributesWithParent, DriverError>(DriverError::OutOfSteps) <==> rounds.len()
            == max_steps + 1 && rounds.last().ready is None,
{
    if rounds.len() == max_steps + 1 && rounds.last().ready is None {
    } else {
        assert(round_end(rounds.last(), safe_head) == Some(r));
        match rounds.last().ready {
            Some(payload) => {},
            None => match decision_for(rounds.last().stepped) {
                Decision::Continue => {},
                Decision::Reset => {},
                Decision::Abort(kind) => {},
            },
        }
    }
}

/// What becomes of a payload that the pipeline has ready.
pub fn accept(payload: L2AttributesWithParent, safe_head: &L2BlockInfo) -> (r: Result<
    L2AttributesWithParent,
    DriverError,
>)
    ensures
        r == accepted(payload, *safe_head),
{
    if same_block(&payload.parent, safe_head) {
        Ok(payload)
    } else {
        Err(DriverError::UnexpectedPayload)
    }
}

/// Why the run ends after a reset with the result `result`, if it does.
pub fn after_reset(result: Result<(), PipelineErrorKind>) -> (failure: Option<DriverError>)
    ensures
        failure == reset_failure(result),
{
    match result {
        Ok(_) => None,
        Err(kind) => {
            match kind {
                PipelineErrorKind::Temporary(PipelineError::Eof) => Some(DriverError::Pipeline(kind)),
                PipelineErrorKind::Temporary(_) => None,
                _ => Some(DriverError::Pipeline(kind)),
            }
        },
    }
}

/// Why the driver has no payload.
#[derive(Debug, Clone, Copy, PartialEq, Eq, Structural)]
pub enum DriverError {
    /// The pipeline failed for good.
    Pipeline(PipelineErrorKind),
    /// The pipeline produced a payload that does not follow the safe head.
    UnexpectedPayload,
    /// The pipeline has no layer 1 origin.
    MissingOrigin,
    /// The allowed number of steps went by without a payload.
    OutOfSteps,
}

/// The cursor of a driver whose pipeline stands at `origin`.
pub open spec fn cursor_at(origin: Option<BlockInfo>) -> Result<BlockInfo, DriverError> {
    match origin {
        Some(origin) => Ok(origin),
        None => Err(DriverError::MissingOrigin),
    }
}

/// The driver of a derivation pipeline.
#[derive(Debug)]
pub struct DerivationDriver<P> {
    l2_safe_head: L2BlockInfo,
    l2_safe_head_header: Sealed,
    safe_origin: BlockInfo,
    safe_config: SystemConfig,
    pipeline: P,
}

impl<P: Pipeline> DerivationDriver<P> {
    /// The layer 2 safe head: the block that the disputed block follows.
    pub closed spec fn safe_head(self) -> L2BlockInfo {
        self.l2_safe_head
    }

    /// The header of the layer 2 safe head.
    pub closed spec fn safe_head_header(self) -> Sealed {
        self.l2_safe_head_header
    }

    /// The layer 1 origin and the system configuration that a reset goes
    /// back to.
    pub closed spec fn safe_point(self) -> (BlockInfo, SystemConfig) {
        (self.safe_origin, self.safe_config)
    }

    /// The pipeline that the driver steps.
    pub closed spec fn stepped(self) -> P {
        self.pipeline
    }

    /// A driver over `pipeline`, with the safe head that the disputed block
    /// follows, and the origin and system configuration that a reset goes
    /// back to.
    pub fn new(
        l2_safe_head: L2BlockInfo,
        l2_safe_head_header: Sealed,
        safe_origin: BlockInfo,
        safe_config: SystemConfig,
        pipeline: P,
    ) -> (driver: DerivationDriver<P>)
        ensures
            driver.safe_head() == l2_safe_head,
            driver.safe_head_header() == l2_safe_head_header,
            driver.safe_point() == (safe_origin, safe_config),
            driver.stepped() == pipeline,
    {
        DerivationDriver { l2_safe_head, l2_safe_head_header, safe_origin, safe_config, pipeline }
    }

    /// The layer 1 origin that the pipeline reports; without one the driver
    /// has no cursor.
    pub fn l1_cursor(&self) -> (r: Result<BlockInfo, DriverError>)
        ensures
            exists|origin: Option<BlockInfo>| #[trigger]
                call_ensures(P::origin, (&self.stepped(),), origin) && r == cursor_at(origin),
    {
        let origin = self.pipeline.origin();
        assert(call_ensures(P::origin, (&self.stepped(),), origin));
        match origin {
            Some(origin) => Ok(origin),
            None => Err(DriverError::MissingOrigin),
        }
    }

    /// The header of the layer 2 safe head.
    pub fn take_l2_safe_head_header(self) -> (header: Sealed)
        ensures
            header == self.safe_head_header(),
    {
        self.l2_safe_head_header
    }

    /// Steps the pipeline until the payload of the disputed block comes out,
    /// for `max_steps` steps at most. In each round the pipeline is asked for
    /// a payload that is ready; one that follows the safe head is the result.
    /// Without one the pipeline is stepped on top of the safe head, and the
    /// driver goes on, resets the pipeline to the safe point, or gives up, as
    /// `decision_for` says. The result is that of a run of such rounds.
    pub fn produce_disputed_payload(&mut self, max_steps: u64) -> (r: Result<
        L2AttributesWithParent,
        DriverError,
    >)
        ensures
            final(self).safe_head() == old(self).safe_head(),
            final(self).safe_head_header() == old(self).safe_head_header(),
            final(self).safe_point() == old(self).safe_point(),
            exists|rounds: Seq<Round>| #[trigger]
                is_run(rounds, old(self).safe_head(), max_steps, r) && forall|i: int|
                    0 <= i < rounds.len() ==> round_made::<P>(
                        #[trigger] rounds[i],
                        old(self).safe_head(),
                        old(self).safe_point(),
                        i < max_steps,
                    ),
            r matches Ok(payload) ==> payload.parent == old(self).safe_head(),
            r matches Err(DriverError::Pipeline(kind)) ==> !(kind matches PipelineErrorKind::Temporary(
                e,
            ) && e != PipelineError::Eof),
            r matches Err(e) ==> e != DriverError::MissingOrigin,
    {
        let ghost head = self.safe_head();
        let ghost point = self.safe_point();
        let ghost mut rounds: Seq<Round> = Seq::empty();
        let mut steps: u64 = 0;
        loop
            invariant
                steps <= max_steps,
                head == old(self).safe_head(),
                point == old(self).safe_point(),
                self.safe_head() == old(self).safe_head(),
                self.safe_head_header() == old(self).safe_head_header(),
                self.safe_point() == old(self).safe_point(),
                rounds.len() == steps,
                forall|i: int| 0 <= i < rounds.len() ==> round_end(#[trigger] rounds[i], head) is None,
                forall|i: int|
                    0 <= i < rounds.len() ==> round_made::<P>(#[trigger] rounds[i], head, point, true),
            decreases max_steps - steps,
        {
            let ghost before = rounds;
            let ready = self.pipeline.next();
            let ghost asked = ready;
            assert(exists|p: &mut P| #[trigger] call_ensures(P::next, (p,), asked));
            match ready {
                Some(payload) => {
                    let r = accept(payload, &self.l2_safe_head);
                    proof {
                        let last = Round {
                            ready: asked,
                            stepped: StepResult::AdvancedOrigin,
                            reset: Ok(()),
                        };
                        rounds = before.push(last);
                        assert(round_made::<P>(last, head, point, steps < max_steps));
                        lemma_run_ends(before, last, head, point, max_steps, r);
                        assert(is_run(rounds, head, max_steps, r));
                        assert forall|i: int| 0 <= i < rounds.len() implies round_made::<P>(
                            #[trigger] rounds[i],
                            head,
                            point,
                            i < max_steps,
                        ) by {
                            if i < before.len() {
                                assert(rounds[i] == before[i]);
                            }
                        }
                    }
                    return r;
                },
                None => {},
            }
            if steps == max_steps {
                let r = Err(DriverError::OutOfSteps);
                proof {
                    let last = Round {
                        ready: asked,
                        stepped: StepResult::AdvancedOrigin,
                        reset: Ok(()),
                    };
                    rounds = before.push(last);
                    assert(round_made::<P>(last, head, point, false));
                    lemma_run_ends(before, last, head, point, max_steps, r);
                    assert forall|i: int| 0 <= i < rounds.len() implies round_made::<P>(
                        #[trigger] rounds[i],
                        head,
                        point,
                        i < max_steps,
                    ) by {
                        if i < before.len() {
                            assert(rounds[i] == before[i]);
                        }
                    }
                }
                return r;
            }
            let result = self.pipeline.step(self.l2_safe_head);
            assert(exists|p: &mut P| #[trigger] call_ensures(P::step, (p, head), result));
            let decision = decide(result);
            let ghost mut reset_as: Result<(), PipelineErrorKind> = Ok(());
            let failure = match decision {
                Decision::Continue => None,
                Decision::Reset => {
                    let reset = self.pipeline.reset(self.safe_origin, &self.safe_config);
                    proof {
                        reset_as = reset;
                        assert(point == self.safe_point());
                        assert(point.0 == self.safe_origin && point.1 == self.safe_config);
                        assert(exists|p: &mut P| #[trigger]
                            call_ensures(P::reset, (p, self.safe_origin, &self.safe_config), reset));
                        assert(exists|p: &mut P| #[trigger]
                            call_ensures(P::reset, (p, point.0, &point.1), reset));
                    }
                    after_reset(reset)
                },
                Decision::Abort(kind) => Some(DriverError::Pipeline(kind)),
            };
            let ghost round = Round { ready: asked, stepped: result, reset: reset_as };
            proof {
                rounds = before.push(round);
                assert(round_made::<P>(round, head, point, true));
            }
            match failure {
                Some(e) => {
                    let r = Err(e);
                    proof {
                        lemma_run_ends(before, round, head, point, max_steps, r);
                        assert forall|i: int| 0 <= i < rounds.len() implies round_made::<P>(
                            #[trigger] rounds[i],
                            head,
                            point,
                            i < max_steps,
                        ) by {
                            if i < before.len() {
                                assert(rounds[i] == before[i]);
                            }
                        }
                    }
                    return r;
                },
                None => {},
            }
            proof {
                assert forall|i: int| 0 <= i < rounds.len() implies round_end(
                    #[trigger] rounds[i],
                    head,
                ) is None by {
                    if i < before.len() {
                        assert(rounds[i] == before[i]);
                    }
                }
                assert forall|i: int| 0 <= i < rounds.len() implies round_made::<P>(
                    #[trigger] rounds[i],
                    head,
                    point,
                    true,
                ) by {
                    if i < before.len() {
                        assert(rounds[i] == before[i]);
                    }
                }
            }
            steps = steps + 1;
        }
    }
}

/// A run of rounds that all went on, with one more round that ends it, is a
/// run with the result of that round.
proof fn lemma_run_ends(
    before: Seq<Round>,
    last: Round,
    head: L2BlockInfo,
    point: (BlockInfo, SystemConfig),
    max_steps: u64,
    r: Result<L2AttributesWithParent, DriverError>,
)
    requires
        before.len() <= max_steps,
        forall|i: int| 0 <= i < before.len() ==> round_end(#[trigger] before[i], head) is None,
        last_round_end(last, head, before.len() == max_steps) == Some(r),
    ensures
        is_run(before.push(last), head, max_steps, r),
{
    let rounds = before.push(last);
    assert(rounds.last() == last);
    assert forall|i: int| 0 <= i < rounds.len() - 1 implies round_end(#[trigger] rounds[i], head)
        is None by {
        assert(rounds[i] == before[i]);
    }
}

/// Whether two layer 2 blocks are the same.
fn same_block(a: &L2BlockInfo, b: &L2BlockInfo) -> (same: bool)
    ensures
        same == (*a == *b),
{
    a.block_info.hash.eq_word(&b.block_info.hash) && a.block_info.number == b.block_info.number
        && a.block_info.parent_hash.eq_word(&b.block_info.parent_hash) && a.block_info.timestamp
        == b.block_info.timestamp && a.l1_origin.number == b.l1_origin.number
        && a.l1_origin.hash.eq_word(&b.l1_origin.hash) && a.seq_num == b.seq_num
}

} // verus!
