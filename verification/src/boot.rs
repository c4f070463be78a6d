//! The boot inputs: what the client is told before it starts, each under a
//! local key of the oracle.

use crate::key::le_bytes;
use crate::key::local_encoding;
use crate::key::PreimageKey;
use crate::l1_provider::extends;
use crate::oracle::CachingOracle;
use crate::oracle::OracleError;
use crate::oracle::PreimageOracleClient;
use crate::primitives::RollupConfig;
use crate::primitives::B256;
use vstd::prelude::*;

verus! {

/// The boot slot of the hash of the layer 1 head.
pub const L1_HEAD_KEY: u64 = 1;

/// The boot slot of the agreed layer 2 output root.
pub const L2_OUTPUT_ROOT_KEY: u64 = 2;

/// The boot slot of the disputed layer 2 output root.
pub const L2_CLAIM_KEY: u64 = 3;

/// The boot slot of the number of the disputed layer 2 block.
pub const L2_CLAIM_BLOCK_NUMBER_KEY: u64 = 4;

/// The boot slot of the identifier of the layer 2 chain.
pub const L2_CHAIN_ID_KEY: u64 = 5;

/// The boot slot of the rollup configuration.
pub const L2_ROLLUP_CONFIG_KEY: u64 = 6;

/// The boot slot of the number of the last layer 1 block of the range; zero
/// for a range without an end.
pub const L1_END_NUMBER_KEY: u64 = 7;

/// What is wrong with a boot input.
#[derive(Debug, Clone, Copy, PartialEq, Eq, Hash, Structural)]
pub enum BootFault {
    /// The oracle has no value for the slot.
    Absent(OracleError),
    /// The value has another length than the slot asks for.
    WrongLength,
    /// The value is not a rollup configuration.
    Config,
}

/// A boot input is missing or malformed.
#[derive(Debug, Clone, Copy, PartialEq, Eq, Hash, Structural)]
pub struct BootInvalid {
    /// The boot slot.
    pub slot: u64,
    /// What is wrong with its value.
    pub fault: BootFault,
}

/// What the client is told before it starts.
#[derive(Debug, Clone, Copy, PartialEq, Eq)]
pub struct BootInfo {
    /// The hash of the layer 1 head, which bounds the derivation.
    pub l1_head: B256,
    /// The agreed output root of the state before the disputed block.
    pub l2_output_root: B256,
    /// The disputed output root.
    pub l2_claim: B256,
    /// The number of the disputed layer 2 block.
    pub l2_claim_block: u64,
    /// The identifier of the layer 2 chain.
    pub chain_id: u64,
    /// The rollup configuration.
    pub rollup_config: RollupConfig,
    /// The number of the last layer 1 block of the range; zero for a range
    /// without an end.
    pub l1_end_number: u64,
}

/// The unsigned number that the JSON text `text` holds under the name `name`;
/// `None` where `text` is no JSON, holds no member of that name, or holds
/// something else than an unsigned number under it. The name stands for
/// three calls in a row, of which each hands its result to the next; what
/// comes out depends on `text` and `name` alone.
pub uninterp spec fn json_member_u64(text: Seq<u8>, name: Seq<char>) -> Option<u64>;

/// `from_slice` of `serde_json` for its `Value`, of which the member `name`
/// is taken with `get` and read with `as_u64`: the unsigned number under
/// `name`.
#[verifier::external_body]
fn json_u64(text: &[u8], name: &str) -> (number: Option<u64>)
    ensures
        number == json_member_u64(text@, name@),
{
    serde_json::from_slice::<serde_json::Value>(text).ok()?.get(name)?.as_u64()
}

/// The rollup configuration with the five numbers, in the order of its
/// fields. `None` where one of them is missing.
pub open spec fn config_with(
    l2_chain_id: Option<u64>,
    block_time: Option<u64>,
    seq_window_size: Option<u64>,
    channel_timeout: Option<u64>,
    max_sequencer_drift: Option<u64>,
) -> Option<RollupConfig> {
    match (l2_chain_id, block_time, seq_window_size, channel_timeout, max_sequencer_drift) {
        (
            Some(l2_chain_id),
            Some(block_time),
            Some(seq_window_size),
            Some(channel_timeout),
            Some(max_sequencer_drift),
        ) => Some(
            RollupConfig {
                l2_chain_id,
                block_time,
                seq_window_size,
                channel_timeout,
                max_sequencer_drift,
            },
        ),
        _ => None,
    }
}

/// The rollup configuration that the JSON text `text` holds: the five
/// numbers under their names. `None` where one of them is missing.
pub open spec fn rollup_config_of(text: Seq<u8>) -> Option<RollupConfig> {
    config_with(
        json_member_u64(text, "l2_chain_id"@),
        json_member_u64(text, "block_time"@),
        json_member_u64(text, "seq_window_size"@),
        json_member_u64(text, "channel_timeout"@),
        json_member_u64(text, "max_sequencer_drift"@),
    )
}

/// The number that eight bytes stand for, the highest byte first.
pub open spec fn be_u64(bytes: Seq<u8>) -> int {
    bytes[0] as int * 0x100_0000_0000_0000 + bytes[1] as int * 0x1_0000_0000_0000 + bytes[2] as int
        * 0x100_0000_0000 + bytes[3] as int * 0x1_0000_0000 + bytes[4] as int * 0x100_0000
        + bytes[5] as int * 0x1_0000 + bytes[6] as int * 0x100 + bytes[7] as int
}

/// What a value of a boot slot stands for where the slot holds a 32-byte
/// word.
pub open spec fn word_of(value: Seq<u8>) -> Result<Seq<u8>, BootFault> {
    if value.len() == 32 {
        Ok(value)
    } else {
        Err(BootFault::WrongLength)
    }
}

/// What a value of a boot slot stands for where the slot holds a number.
pub open spec fn number_of(value: Seq<u8>) -> Result<u64, BootFault> {
    if value.len() == 8 {
        Ok(be_u64(value) as u64)
    } else {
        Err(BootFault::WrongLength)
    }
}

/// What a value of a boot slot stands for where the slot holds the rollup
/// configuration.
pub open spec fn config_of(value: Seq<u8>) -> Result<RollupConfig, BootFault> {
    match rollup_config_of(value) {
        Some(config) => Ok(config),
        None => Err(BootFault::Config),
    }
}

/// The 32-byte word that `value` is.
pub fn read_word(value: &[u8]) -> (r: Result<B256, BootFault>)
    ensures
        match r {
            Ok(word) => word_of(value@) == Ok::<Seq<u8>, BootFault>(word@),
            Err(fault) => word_of(value@) == Err::<Seq<u8>, BootFault>(fault),
        },
{
    if value.len() != 32 {
        return Err(BootFault::WrongLength);
    }
    let mut word = [0u8; 32];
    let mut i: usize = 0;
    while i < 32
        invariant
            i <= 32,
            value@.len() == 32,
            forall|j: int| 0 <= j < i ==> word@[j] == value@[j],
        decreases 32 - i,
    {
        word[i] = value[i];
        i = i + 1;
    }
    assert(word@ =~= value@);
    Ok(B256(word))
}

/// The number that the eight bytes of `value` stand for, the highest byte
/// first.
pub fn read_number(value: &[u8]) -> (r: Result<u64, BootFault>)
    ensures
        r == number_of(value@),
{
    if value.len() != 8 {
        return Err(BootFault::WrongLength);
    }
    let number: u64 = (value[0] as u64) * 0x100_0000_0000_0000 + (value[1] as u64)
        * 0x1_0000_0000_0000 + (value[2] as u64) * 0x100_0000_0000 + (value[3] as u64)
        * 0x1_0000_0000 + (value[4] as u64) * 0x100_0000 + (value[5] as u64) * 0x1_0000 + (
    value[6] as u64) * 0x100 + (value[7] as u64);
    Ok(number)
}

/// The rollup configuration with the five numbers; without one of them
/// there is none.
pub fn configure(
    l2_chain_id: Option<u64>,
    block_time: Option<u64>,
    seq_window_size: Option<u64>,
    channel_timeout: Option<u64>,
    max_sequencer_drift: Option<u64>,
) -> (r: Result<RollupConfig, BootFault>)
    ensures
        r == match config_with(
            l2_chain_id,
            block_time,
            seq_window_size,
            channel_timeout,
            max_sequencer_drift,
        ) {
            Some(config) => Ok::<RollupConfig, BootFault>(config),
            None => Err::<RollupConfig, BootFault>(BootFault::Config),
        },
{
    match (l2_chain_id, block_time, seq_window_size, channel_timeout, max_sequencer_drift) {
        (
            Some(l2_chain_id),
            Some(block_time),
            Some(seq_window_size),
            Some(channel_timeout),
            Some(max_sequencer_drift),
        ) => Ok(
            RollupConfig {
                l2_chain_id,
                block_time,
                seq_window_size,
                channel_timeout,
                max_sequencer_drift,
            },
        ),
        _ => Err(BootFault::Config),
    }
}

/// The rollup configuration that `value` holds: the five numbers that the
/// JSON text holds under the names of the fields.
pub fn read_config(value: &[u8]) -> (r: Result<RollupConfig, BootFault>)
    ensures
        r == config_of(value@),
{
    configure(
        json_u64(value, "l2_chain_id"),
        json_u64(value, "block_time"),
        json_u64(value, "seq_window_size"),
        json_u64(value, "channel_timeout"),
        json_u64(value, "max_sequencer_drift"),
    )
}

/// Whether `held` holds a value for the boot slot `slot`.
pub open spec fn holds_slot(held: Map<Seq<u8>, Seq<u8>>, slot: u64) -> bool {
    held.contains_key(local_encoding(slot))
}

/// The value that `held` holds for the boot slot `slot`.
pub open spec fn slot_value(held: Map<Seq<u8>, Seq<u8>>, slot: u64) -> Seq<u8> {
    held[local_encoding(slot)]
}

/// Whether `held` holds a value for each of the seven boot slots.
pub open spec fn holds_boot(held: Map<Seq<u8>, Seq<u8>>) -> bool {
    &&& holds_slot(held, L1_HEAD_KEY)
    &&& holds_slot(held, L2_OUTPUT_ROOT_KEY)
    &&& holds_slot(held, L2_CLAIM_KEY)
    &&& holds_slot(held, L2_CLAIM_BLOCK_NUMBER_KEY)
    &&& holds_slot(held, L2_CHAIN_ID_KEY)
    &&& holds_slot(held, L2_ROLLUP_CONFIG_KEY)
    &&& holds_slot(held, L1_END_NUMBER_KEY)
}

/// What is wrong with `value` as the value of the boot slot `slot`, if
/// anything: the roots are words, the numbers are numbers, and the rollup
/// configuration is a configuration.
pub open spec fn value_fault(slot: u64, value: Seq<u8>) -> Option<BootFault> {
    if slot == L2_CLAIM_BLOCK_NUMBER_KEY || slot == L2_CHAIN_ID_KEY || slot == L1_END_NUMBER_KEY {
        match number_of(value) {
            Ok(_) => None,
            Err(fault) => Some(fault),
        }
    } else if slot == L2_ROLLUP_CONFIG_KEY {
        match config_of(value) {
            Ok(_) => None,
            Err(fault) => Some(fault),
        }
    } else {
        match word_of(value) {
            Ok(_) => None,
            Err(fault) => Some(fault),
        }
    }
}

/// What is wrong with the value that `held` holds for the boot slot `slot`,
/// if anything.
pub open spec fn slot_fault(held: Map<Seq<u8>, Seq<u8>>, slot: u64) -> Option<BootFault> {
    value_fault(slot, slot_value(held, slot))
}

/// The first boot slot, from the first to the seventh, whose value in `held`
/// is malformed, with what is wrong with it.
pub open spec fn first_fault(held: Map<Seq<u8>, Seq<u8>>) -> Option<BootInvalid> {
    first_fault_from(held, 1)
}

/// The first boot slot from `slot` on whose value in `held` is malformed.
pub open spec fn first_fault_from(held: Map<Seq<u8>, Seq<u8>>, slot: u64) -> Option<BootInvalid>
    decreases 8 - slot,
{
    if slot > 7 {
        None
    } else {
        match slot_fault(held, slot) {
            Some(fault) => Some(BootInvalid { slot, fault }),
            None => first_fault_from(held, (slot + 1) as u64),
        }
    }
}

/// Whether `boot` is what the values of the seven boot slots in `held` stand
/// for.
pub open spec fn boot_matches(boot: BootInfo, held: Map<Seq<u8>, Seq<u8>>) -> bool {
    &&& word_of(slot_value(held, L1_HEAD_KEY)) == Ok::<Seq<u8>, BootFault>(boot.l1_head@)
    &&& word_of(slot_value(held, L2_OUTPUT_ROOT_KEY)) == Ok::<Seq<u8>, BootFault>(
        boot.l2_output_root@,
    )
    &&& word_of(slot_value(held, L2_CLAIM_KEY)) == Ok::<Seq<u8>, BootFault>(boot.l2_claim@)
    &&& number_of(slot_value(held, L2_CLAIM_BLOCK_NUMBER_KEY)) == Ok::<u64, BootFault>(
        boot.l2_claim_block,
    )
    &&& number_of(slot_value(held, L2_CHAIN_ID_KEY)) == Ok::<u64, BootFault>(boot.chain_id)
    &&& config_of(slot_value(held, L2_ROLLUP_CONFIG_KEY)) == Ok::<RollupConfig, BootFault>(
        boot.rollup_config,
    )
    &&& number_of(slot_value(held, L1_END_NUMBER_KEY)) == Ok::<u64, BootFault>(boot.l1_end_number)
}

/// `after` is `before`, or `before` with one more value, for the boot slot
/// `slot`.
pub open spec fn grown_by(
    before: Map<Seq<u8>, Seq<u8>>,
    after: Map<Seq<u8>, Seq<u8>>,
    slot: u64,
) -> bool {
    ||| after == before
    ||| !holds_slot(before, slot) && exists|value: Seq<u8>|
        after == before.insert(local_encoding(slot), value)
}

/// The keys of two boot slots differ where the slots do.
pub proof fn lemma_local_encoding_injective(a: u64, b: u64)
    requires
        1 <= a <= 7,
        1 <= b <= 7,
        a != b,
    ensures
        local_encoding(a) != local_encoding(b),
{
    assert(local_encoding(a)[1] == le_bytes(a)[0]);
    assert(local_encoding(b)[1] == le_bytes(b)[0]);
}

/// Whether a reader can answer the request for the boot slot `slot` with
/// `fetched`.
pub open spec fn reader_answers<R: PreimageOracleClient>(
    slot: u64,
    fetched: Result<Vec<u8>, OracleError>,
) -> bool {
    exists|reader: &mut R, key: PreimageKey|
        key.encoding() == local_encoding(slot) && #[trigger] call_ensures(
            R::get,
            (reader, key),
            fetched,
        )
}

/// What the loader makes of an absent boot slot for which the reader
/// delivered `fetched`: an error of the reader is the fault of the slot.
pub open spec fn absent_slot_read(
    slot: u64,
    fetched: Result<Vec<u8>, OracleError>,
    r: Result<Vec<u8>, BootInvalid>,
) -> bool {
    match fetched {
        Ok(value) => r matches Ok(read) && read@ == value@,
        Err(e) => r == Err::<Vec<u8>, BootInvalid>(BootInvalid { slot, fault: BootFault::Absent(e) }),
    }
}

/// Whether a load that stands before the boot slot `slot`, on an oracle
/// whose cache is `held`, can end with `failure` and the cache `after`. The
/// slots are read in their order, from `slot` to the seventh. A slot that the
/// cache lacks is asked of the reader; its error ends the load, as the fault
/// of the slot, and what it delivers is kept in the cache. A malformed value
/// ends the load too. Without such a slot there is no failure.
pub open spec fn loads_from<R: PreimageOracleClient>(
    held: Map<Seq<u8>, Seq<u8>>,
    slot: u64,
    failure: Option<BootInvalid>,
    after: Map<Seq<u8>, Seq<u8>>,
) -> bool
    decreases 8 - slot,
{
    if slot > 7 {
        failure is None && after == held
    } else if holds_slot(held, slot) {
        match slot_fault(held, slot) {
            Some(fault) => failure == Some(BootInvalid { slot, fault }) && after == held,
            None => loads_from::<R>(held, (slot + 1) as u64, failure, after),
        }
    } else {
        exists|fetched: Result<Vec<u8>, OracleError>| #[trigger]
            reader_answers::<R>(slot, fetched) && fetched_from::<R>(
                held,
                slot,
                fetched,
                failure,
                after,
            )
    }
}

/// Whether a load that got `fetched` from the reader for the boot slot
/// `slot`, which the cache `held` lacks, can end with `failure` and the
/// cache `after`.
pub open spec fn fetched_from<R: PreimageOracleClient>(
    held: Map<Seq<u8>, Seq<u8>>,
    slot: u64,
    fetched: Result<Vec<u8>, OracleError>,
    failure: Option<BootInvalid>,
    after: Map<Seq<u8>, Seq<u8>>,
) -> bool
    decreases 8 - slot, 0int,
{
    if slot > 7 {
        false
    } else {
        match fetched {
            Err(e) => failure == Some(BootInvalid { slot, fault: BootFault::Absent(e) }) && after
                == held,
            Ok(value) => {
                let grown = held.insert(local_encoding(slot), value@);
                match value_fault(slot, value@) {
                    Some(fault) => failure == Some(BootInvalid { slot, fault }) && after == grown,
                    None => loads_from::<R>(grown, (slot + 1) as u64, failure, after),
                }
            },
        }
    }
}

/// Whether every end of a load that stands before the boot slot `slot`, on
/// the cache `now`, is an end of the load that began on the cache `start`.
spec fn leads<R: PreimageOracleClient>(
    start: Map<Seq<u8>, Seq<u8>>,
    now: Map<Seq<u8>, Seq<u8>>,
    slot: u64,
) -> bool {
    forall|failure: Option<BootInvalid>, after: Map<Seq<u8>, Seq<u8>>| #[trigger]
        loads_from::<R>(now, slot, failure, after) ==> loads_from::<R>(start, 1, failure, after)
}

/// Whether `r` is the result of reading the boot slot `slot` between the
/// caches `before` and `now`.
spec fn slot_was_read<R: PreimageOracleClient>(
    before: Map<Seq<u8>, Seq<u8>>,
    now: Map<Seq<u8>, Seq<u8>>,
    slot: u64,
    r: Result<Vec<u8>, BootInvalid>,
) -> bool {
    &&& !holds_slot(before, slot) ==> exists|fetched: Result<Vec<u8>, OracleError>| #[trigger]
        reader_answers::<R>(slot, fetched) && absent_slot_read(slot, fetched, r)
    &&& r is Err ==> now == before
    &&& grown_by(before, now, slot)
    &&& r matches Err(e) ==> e.slot == slot && e.fault is Absent && !holds_slot(before, slot)
    &&& r matches Ok(value) ==> holds_slot(now, slot) && value@ == slot_value(now, slot)
    &&& holds_slot(before, slot) ==> now == before
}

/// A load goes on behind a boot slot that was read and is well-formed.
proof fn lemma_slot_passed<R: PreimageOracleClient>(
    start: Map<Seq<u8>, Seq<u8>>,
    before: Map<Seq<u8>, Seq<u8>>,
    now: Map<Seq<u8>, Seq<u8>>,
    slot: u64,
    r: Result<Vec<u8>, BootInvalid>,
)
    requires
        1 <= slot <= 7,
        leads::<R>(start, before, slot),
        slot_was_read::<R>(before, now, slot, r),
        r matches Ok(value) && value_fault(slot, value@) is None,
    ensures
        leads::<R>(start, now, (slot + 1) as u64),
{
    assert forall|failure: Option<BootInvalid>, after: Map<Seq<u8>, Seq<u8>>| #[trigger]
        loads_from::<R>(now, (slot + 1) as u64, failure, after) implies loads_from::<R>(
        start,
        1,
        failure,
        after,
    ) by {
        lemma_slot_went_on::<R>(before, now, slot, r, failure, after);
    }
}

/// Behind a boot slot that was read and is well-formed, the load ends as
/// it ends from the next slot on.
proof fn lemma_slot_went_on<R: PreimageOracleClient>(
    before: Map<Seq<u8>, Seq<u8>>,
    now: Map<Seq<u8>, Seq<u8>>,
    slot: u64,
    r: Result<Vec<u8>, BootInvalid>,
    failure: Option<BootInvalid>,
    after: Map<Seq<u8>, Seq<u8>>,
)
    requires
        1 <= slot <= 7,
        slot_was_read::<R>(before, now, slot, r),
        r matches Ok(value) && value_fault(slot, value@) is None,
        loads_from::<R>(now, (slot + 1) as u64, failure, after),
    ensures
        loads_from::<R>(before, slot, failure, after),
{
    if !holds_slot(before, slot) {
        let fetched = choose|fetched: Result<Vec<u8>, OracleError>| #[trigger]
            reader_answers::<R>(slot, fetched) && absent_slot_read(slot, fetched, r);
        let value = fetched->Ok_0;
        assert(now =~= before.insert(local_encoding(slot), value@));
        assert(fetched_from::<R>(before, slot, fetched, failure, after));
    }
}

/// A load ends at a boot slot that is absent or malformed, with the fault
/// of that slot.
proof fn lemma_slot_failed<R: PreimageOracleClient>(
    start: Map<Seq<u8>, Seq<u8>>,
    before: Map<Seq<u8>, Seq<u8>>,
    now: Map<Seq<u8>, Seq<u8>>,
    slot: u64,
    r: Result<Vec<u8>, BootInvalid>,
    failure: BootInvalid,
)
    requires
        1 <= slot <= 7,
        leads::<R>(start, before, slot),
        slot_was_read::<R>(before, now, slot, r),
        match r {
            Ok(value) => value_fault(slot, value@) == Some(failure.fault) && failure.slot == slot,
            Err(e) => failure == e,
        },
    ensures
        loads_from::<R>(start, 1, Some(failure), now),
{
    if !holds_slot(before, slot) {
        let fetched = choose|fetched: Result<Vec<u8>, OracleError>| #[trigger]
            reader_answers::<R>(slot, fetched) && absent_slot_read(slot, fetched, r);
        if r is Ok {
            let value = fetched->Ok_0;
            assert(now =~= before.insert(local_encoding(slot), value@));
        }
        assert(fetched_from::<R>(before, slot, fetched, Some(failure), now));
    }
    assert(loads_from::<R>(before, slot, Some(failure), now));
}

/// Why a load failed, if it did.
pub open spec fn failure_of<T>(r: Result<T, BootInvalid>) -> Option<BootInvalid> {
    match r {
        Ok(_) => None,
        Err(e) => Some(e),
    }
}

/// The value of the boot slot `slot`.
fn read_slot<R: PreimageOracleClient>(oracle: &mut CachingOracle<R>, slot: u64) -> (r: Result<
    Vec<u8>,
    BootInvalid,
>)
    ensures
        !holds_slot(old(oracle).held(), slot) ==> exists|fetched: Result<Vec<u8>, OracleError>|
            #[trigger] reader_answers::<R>(slot, fetched) && absent_slot_read(slot, fetched, r),
        r is Err ==> final(oracle).held() == old(oracle).held(),
        grown_by(old(oracle).held(), final(oracle).held(), slot),
        r matches Err(e) ==> e.slot == slot && e.fault is Absent && !holds_slot(
            old(oracle).held(),
            slot,
        ),
        r matches Ok(value) ==> holds_slot(final(oracle).held(), slot) && value@ == slot_value(
            final(oracle).held(),
            slot,
        ),
        holds_slot(old(oracle).held(), slot) ==> final(oracle).held() == old(oracle).held(),
        extends(old(oracle).held(), final(oracle).held()),
{
    let key = PreimageKey::new_local(slot);
    let got = oracle.get(key);
    proof {
        if !holds_slot(old(oracle).held(), slot) {
            let (reader, fetched) = choose|reader: &mut R, fetched: Result<Vec<u8>, OracleError>|
                #[trigger] call_ensures(R::get, (reader, key), fetched) && crate::oracle::value_view(
                    got,
                ) == crate::oracle::admitted(key, crate::oracle::value_view(fetched));
            assert(call_ensures(R::get, (reader, key), fetched));
            assert(reader_answers::<R>(slot, fetched));
        }
    }
    match got {
        Ok(value) => Ok(value),
        Err(e) => Err(BootInvalid { slot, fault: BootFault::Absent(e) }),
    }
}

impl BootInfo {
    /// Reads the seven boot slots from the oracle, from the first to the
    /// seventh, and stops at the first that is absent or malformed. A slot
    /// that the cache lacks is asked of the reader; what the reader delivers
    /// is kept in the cache.
    ///
    /// The three roots are 32 bytes each. The three numbers are eight bytes
    /// each, the highest byte first. The rollup configuration is JSON.
    pub fn load<R: PreimageOracleClient>(oracle: &mut CachingOracle<R>) -> (r: Result<
        BootInfo,
        BootInvalid,
    >)
        ensures
            extends(old(oracle).held(), final(oracle).held()),
            loads_from::<R>(old(oracle).held(), 1, failure_of(r), final(oracle).held()),
            r matches Ok(boot) ==> holds_boot(final(oracle).held()) && boot_matches(
                boot,
                final(oracle).held(),
            ),
            holds_boot(old(oracle).held()) ==> final(oracle).held() == old(oracle).held()
                && match r {
                Ok(boot) => first_fault(old(oracle).held()) is None,
                Err(e) => first_fault(old(oracle).held()) == Some(e),
            },
    {
        let ghost start = oracle.held();
        proof {
            reveal_with_fuel(first_fault_from, 8);
            lemma_slots_apart();
            assert(leads::<R>(start, start, 1));
        }
        let ghost before = oracle.held();
        let got = read_slot(oracle, L1_HEAD_KEY);
        let value = match got {
            Ok(value) => value,
            Err(e) => {
                proof {
                    lemma_slot_failed::<R>(start, before, oracle.held(), L1_HEAD_KEY, got, e);
                }
                return Err(e);
            },
        };
        let l1_head = match read_word(value.as_slice()) {
            Ok(word) => word,
            Err(fault) => {
                let failure = BootInvalid { slot: L1_HEAD_KEY, fault };
                proof {
                    lemma_slot_failed::<R>(start, before, oracle.held(), L1_HEAD_KEY, got, failure);
                }
                return Err(failure);
            },
        };
        proof {
            lemma_slot_passed::<R>(start, before, oracle.held(), L1_HEAD_KEY, got);
        }
        let ghost before = oracle.held();
        let got = read_slot(oracle, L2_OUTPUT_ROOT_KEY);
        let value = match got {
            Ok(value) => value,
            Err(e) => {
                proof {
                    lemma_slot_failed::<R>(start, before, oracle.held(), L2_OUTPUT_ROOT_KEY, got, e);
                }
                return Err(e);
            },
        };
        let l2_output_root = match read_word(value.as_slice()) {
            Ok(word) => word,
            Err(fault) => {
                let failure = BootInvalid { slot: L2_OUTPUT_ROOT_KEY, fault };
                proof {
                    lemma_slot_failed::<R>(start, before, oracle.held(), L2_OUTPUT_ROOT_KEY, got, failure);
                }
                return Err(failure);
            },
        };
        proof {
            lemma_slot_passed::<R>(start, before, oracle.held(), L2_OUTPUT_ROOT_KEY, got);
        }
        let ghost before = oracle.held();
        let got = read_slot(oracle, L2_CLAIM_KEY);
        let value = match got {
            Ok(value) => value,
            Err(e) => {
                proof {
                    lemma_slot_failed::<R>(start, before, oracle.held(), L2_CLAIM_KEY, got, e);
                }
                return Err(e);
            },
        };
        let l2_claim = match read_word(value.as_slice()) {
            Ok(word) => word,
            Err(fault) => {
                let failure = BootInvalid { slot: L2_CLAIM_KEY, fault };
                proof {
                    lemma_slot_failed::<R>(start, before, oracle.held(), L2_CLAIM_KEY, got, failure);
                }
                return Err(failure);
            },
        };
        proof {
            lemma_slot_passed::<R>(start, before, oracle.held(), L2_CLAIM_KEY, got);
        }
        let ghost before = oracle.held();
        let got = read_slot(oracle, L2_CLAIM_BLOCK_NUMBER_KEY);
        let value = match got {
            Ok(value) => value,
            Err(e) => {
                proof {
                    lemma_slot_failed::<R>(start, before, oracle.held(), L2_CLAIM_BLOCK_NUMBER_KEY, got, e);
                }
                return Err(e);
            },
        };
        let l2_claim_block = match read_number(value.as_slice()) {
            Ok(number) => number,
            Err(fault) => {
                let failure = BootInvalid { slot: L2_CLAIM_BLOCK_NUMBER_KEY, fault };
                proof {
                    lemma_slot_failed::<R>(start, before, oracle.held(), L2_CLAIM_BLOCK_NUMBER_KEY, got, failure);
                }
                return Err(failure);
            },
        };
        proof {
            lemma_slot_passed::<R>(start, before, oracle.held(), L2_CLAIM_BLOCK_NUMBER_KEY, got);
        }
        let ghost before = oracle.held();
        let got = read_slot(oracle, L2_CHAIN_ID_KEY);
        let value = match got {
            Ok(value) => value,
            Err(e) => {
                proof {
                    lemma_slot_failed::<R>(start, before, oracle.held(), L2_CHAIN_ID_KEY, got, e);
                }
                return Err(e);
            },
        };
        let chain_id = match read_number(value.as_slice()) {
            Ok(number) => number,
            Err(fault) => {
                let failure = BootInvalid { slot: L2_CHAIN_ID_KEY, fault };
                proof {
                    lemma_slot_failed::<R>(start, before, oracle.held(), L2_CHAIN_ID_KEY, got, failure);
                }
                return Err(failure);
            },
        };
        proof {
            lemma_slot_passed::<R>(start, before, oracle.held(), L2_CHAIN_ID_KEY, got);
        }
        let ghost before = oracle.held();
        let got = read_slot(oracle, L2_ROLLUP_CONFIG_KEY);
        let value = match got {
            Ok(value) => value,
            Err(e) => {
                proof {
                    lemma_slot_failed::<R>(start, before, oracle.held(), L2_ROLLUP_CONFIG_KEY, got, e);
                }
                return Err(e);
            },
        };
        let rollup_config = match read_config(value.as_slice()) {
            Ok(config) => config,
            Err(fault) => {
                let failure = BootInvalid { slot: L2_ROLLUP_CONFIG_KEY, fault };
                proof {
                    lemma_slot_failed::<R>(start, before, oracle.held(), L2_ROLLUP_CONFIG_KEY, got, failure);
                }
                return Err(failure);
            },
        };
        proof {
            lemma_slot_passed::<R>(start, before, oracle.held(), L2_ROLLUP_CONFIG_KEY, got);
        }
        let ghost before = oracle.held();
        let got = read_slot(oracle, L1_END_NUMBER_KEY);
        let value = match got {
            Ok(value) => value,
            Err(e) => {
                proof {
                    lemma_slot_failed::<R>(start, before, oracle.held(), L1_END_NUMBER_KEY, got, e);
                }
                return Err(e);
            },
        };
        let l1_end_number = match read_number(value.as_slice()) {
            Ok(number) => number,
            Err(fault) => {
                let failure = BootInvalid { slot: L1_END_NUMBER_KEY, fault };
                proof {
                    lemma_slot_failed::<R>(start, before, oracle.held(), L1_END_NUMBER_KEY, got, failure);
                }
                return Err(failure);
            },
        };
        proof {
            lemma_slot_passed::<R>(start, before, oracle.held(), L1_END_NUMBER_KEY, got);
        }
        assert(loads_from::<R>(oracle.held(), 8, None, oracle.held()));
        Ok(
            BootInfo {
                l1_head,
                l2_output_root,
                l2_claim,
                l2_claim_block,
                chain_id,
                rollup_config,
                l1_end_number,
            },
        )
    }
}

/// The keys of the seven boot slots differ from one another.
pub proof fn lemma_slots_apart()
    ensures
        forall|a: u64, b: u64|
            1 <= a <= 7 && 1 <= b <= 7 && a != b ==> #[trigger] local_encoding(a)
                != #[trigger] local_encoding(b),
{
    assert forall|a: u64, b: u64| 1 <= a <= 7 && 1 <= b <= 7 && a != b implies #[trigger]
        local_encoding(a) != #[trigger] local_encoding(b) by {
        lemma_local_encoding_injective(a, b);
    }
}

} // verus!
