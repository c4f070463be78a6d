//! The run of the client: boot, derive, bind the layer 1 range, execute, and
//! hold the result against the claim.
//!
//! Deriving and executing are the work of engines outside this library. The
//! scenario takes what they deliver and decides whether to go on.

use crate::boot::boot_matches;
use crate::boot::failure_of;
use crate::boot::first_fault;
use crate::boot::holds_boot;
use crate::boot::loads_from;
use crate::boot::BootInfo;
use crate::boot::BootInvalid;
use crate::digest::keccak256;
use crate::digest::keccak256_digest;
use crate::header::is_chain;
use crate::header::linked;
use crate::header::Header;
use crate::header::HeaderFields;
use crate::header::Sealed;
use crate::key::PreimageKey;
use crate::l1_provider::block_of;
use crate::l1_provider::block_on_chain;
use crate::l1_provider::extends;
use crate::l1_provider::header_in;
use crate::l1_provider::is_trail;
use crate::l1_provider::lemma_trail_found;
use crate::l1_provider::HintWriterClient;
use crate::l1_provider::OracleL1ChainProvider;
use crate::l1_provider::ProviderError;
use crate::oracle::prebuilt_cache;
use crate::oracle::CachingOracle;
use crate::oracle::PreimageOracleClient;
use crate::primitives::lemma_word_by_bytes;
use crate::primitives::BlockInfo;
use crate::primitives::L2AttributesWithParent;
use crate::primitives::L2PayloadAttributes;
use crate::primitives::B256;
use crate::traits::ChainProvider;
use vstd::prelude::*;

verus! {

/// The version of the output root that the client computes.
pub const OUTPUT_ROOT_VERSION: u8 = 0;

/// What is hashed into an output root: the version, the state root, the
/// storage root of the withdrawals contract, and the block hash. The version
/// takes a word of 32 bytes, as the other three do, so that the four stand
/// side by side as the rollup's contracts on layer 1 hash them: 31 zero
/// bytes, then the version byte.
pub open spec fn output_root_preimage(
    state_root: Seq<u8>,
    withdrawals_storage_root: Seq<u8>,
    block_hash: Seq<u8>,
) -> Seq<u8> {
    Seq::new(32, |i: int| if i == 31 { OUTPUT_ROOT_VERSION } else { 0u8 }) + state_root
        + withdrawals_storage_root + block_hash
}

/// The output root of a block: the Keccak-256 digest of the version, the
/// state root, the storage root of the withdrawals contract and the block
/// hash.
pub open spec fn output_root_of(
    state_root: Seq<u8>,
    withdrawals_storage_root: Seq<u8>,
    block_hash: Seq<u8>,
) -> Seq<u8> {
    keccak256_digest(output_root_preimage(state_root, withdrawals_storage_root, block_hash))
}

/// The output root of the block with the given roots and hash.
pub fn output_root(state_root: &B256, withdrawals_storage_root: &B256, block_hash: &B256) -> (root:
    B256)
    ensures
        root@ == output_root_of(state_root@, withdrawals_storage_root@, block_hash@),
{
    let mut raw: Vec<u8> = Vec::new();
    let mut i: usize = 0;
    while i < 31
        invariant
            i <= 31,
            raw@.len() == i,
            forall|j: int| 0 <= j < i ==> raw@[j] == 0u8,
        decreases 31 - i,
    {
        raw.push(0u8);
        i = i + 1;
    }
    raw.push(OUTPUT_ROOT_VERSION);
    let ghost version = raw@;
    raw.extend_from_slice(state_root.0.as_slice());
    let ghost with_state = raw@;
    raw.extend_from_slice(withdrawals_storage_root.0.as_slice());
    let ghost with_storage = raw@;
    raw.extend_from_slice(block_hash.0.as_slice());
    proof {
        assert(with_state =~= version + state_root@);
        assert(with_storage =~= with_state + withdrawals_storage_root@);
        assert(raw@ =~= with_storage + block_hash@);
        assert(raw@ =~= output_root_preimage(
            state_root@,
            withdrawals_storage_root@,
            block_hash@,
        ));
    }
    keccak256(raw.as_slice())
}

/// Why the layer 1 range is not bound.
#[derive(Debug, Clone, Copy, PartialEq, Eq)]
pub enum ConnectivityError<E> {
    /// The end of the range lies before the origin.
    InvalidRange,
    /// The provider failed.
    Provider(E),
    /// The provider delivered a header with another hash than the one that
    /// it was asked for.
    BrokenLink,
    /// The header at the origin's height is not the origin.
    OriginMismatch,
}

/// What a provider answered on a walk: to the request for the block at the
/// end, to the request for that block's header, and to the requests for the
/// parents, in the order of the walk.
pub struct Answers<E> {
    /// The answer to the request for the block with the number of the end.
    pub end_info: Result<BlockInfo, E>,
    /// The answer to the request for the header of that block.
    pub end_header: Result<Header, E>,
    /// The answers to the requests for the parents, the highest first.
    pub parents: Seq<Result<Header, E>>,
}

/// The header at which the walk starts: the one that the provider handed
/// out for the block at the end, if it has the hash of that block.
pub open spec fn start_of<E>(end_info: BlockInfo, end_header: Header) -> Result<
    Header,
    ConnectivityError<E>,
> {
    if end_header.spec_hash() == end_info.hash@ {
        Ok(end_header)
    } else {
        Err(ConnectivityError::BrokenLink)
    }
}

/// The header on which the walk goes on from `child`: the one that the
/// provider handed out for its parent, if it has the hash that `child` names.
pub open spec fn link_of<E>(child: Header, parent: Header) -> Result<Header, ConnectivityError<E>> {
    if parent.spec_hash() == child.fields().parent_hash@ {
        Ok(parent)
    } else {
        Err(ConnectivityError::BrokenLink)
    }
}

/// The header that the walk stands on after `count` steps down, or why it
/// ended before.
pub open spec fn reached<E>(answers: Answers<E>, count: nat) -> Result<Header, ConnectivityError<E>>
    decreases count,
{
    if count == 0 {
        match answers.end_info {
            Err(e) => Err(ConnectivityError::Provider(e)),
            Ok(end_info) => match answers.end_header {
                Err(e) => Err(ConnectivityError::Provider(e)),
                Ok(end_header) => start_of(end_info, end_header),
            },
        }
    } else {
        match reached(answers, (count - 1) as nat) {
            Err(e) => Err(e),
            Ok(child) => match answers.parents[count - 1] {
                Err(e) => Err(ConnectivityError::Provider(e)),
                Ok(parent) => link_of(child, parent),
            },
        }
    }
}

/// What the walk from the block with the number `end_num` down to the
/// height of the origin gives on the answers `answers`: the hash of the
/// header at the end, where the walk ends at the origin.
pub open spec fn walk_outcome<E>(
    origin_hash: Seq<u8>,
    origin_num: u64,
    end_num: u64,
    answers: Answers<E>,
) -> Result<Seq<u8>, ConnectivityError<E>> {
    if end_num < origin_num {
        Err(ConnectivityError::InvalidRange)
    } else {
        match reached(answers, (end_num - origin_num) as nat) {
            Err(e) => Err(e),
            Ok(last) => if last.spec_hash() == origin_hash && last.fields().number == origin_num {
                Ok(answers.end_header->Ok_0.spec_hash())
            } else {
                Err(ConnectivityError::OriginMismatch)
            },
        }
    }
}

/// Whether the provider can have given `answers` on a walk of `steps` steps
/// from the block with the number `end_num`: it was asked for that block,
/// for the header with that block's hash, and at each step for the header
/// with the parent hash of the header that the walk stood on.
pub open spec fn answered<P: ChainProvider>(answers: Answers<P::Error>, end_num: u64, steps: nat) -> bool {
    &&& exists|p: &mut P| #[trigger]
        call_ensures(P::block_info_by_number, (p, end_num), answers.end_info)
    &&& match answers.end_info {
        Ok(end_info) => header_answered::<P>(end_info.hash, answers.end_header),
        Err(_) => true,
    }
    &&& forall|i: int| 0 <= i < steps ==> #[trigger] parent_answered::<P>(answers, i)
}

/// Whether the provider can have given the answer at the step `i` of the
/// walk: where the walk stood on a header, the provider was asked for the
/// header with the parent hash of that header.
pub open spec fn parent_answered<P: ChainProvider>(answers: Answers<P::Error>, i: int) -> bool {
    match reached(answers, i as nat) {
        Ok(child) => header_answered::<P>(child.fields().parent_hash, answers.parents[i]),
        Err(_) => true,
    }
}

/// Whether the provider can have given `answer` to the request for the
/// header with the hash `hash`.
pub open spec fn header_answered<P: ChainProvider>(hash: B256, answer: Result<Header, P::Error>) -> bool {
    exists|p: &mut P| #[trigger] call_ensures(P::header_by_hash, (p, hash), answer)
}

/// The outcome of a walk with the hash as a sequence of bytes.
pub open spec fn outcome_view<E>(r: Result<B256, ConnectivityError<E>>) -> Result<
    Seq<u8>,
    ConnectivityError<E>,
> {
    match r {
        Ok(hash) => Ok(hash@),
        Err(e) => Err(e),
    }
}

/// How far the walk has come depends only on the answers up to there.
pub proof fn lemma_reached_so_far<E>(a: Answers<E>, b: Answers<E>, count: nat)
    requires
        a.end_info == b.end_info,
        a.end_header == b.end_header,
        forall|i: int| 0 <= i < count ==> a.parents[i] == b.parents[i],
    ensures
        reached(a, count) == reached(b, count),
    decreases count,
{
    if count > 0 {
        lemma_reached_so_far(a, b, (count - 1) as nat);
    }
}

/// A walk that has ended stays where it ended.
pub proof fn lemma_walk_ended<E>(answers: Answers<E>, at: nat, count: nat)
    requires
        reached(answers, at) is Err,
        at <= count,
    ensures
        reached(answers, count) == reached(answers, at),
    decreases count,
{
    if at < count {
        lemma_walk_ended(answers, at, (count - 1) as nat);
    }
}

/// Whether `answers` are those of a provider that has the chain `chain`,
/// the origin first: it names the last block of the chain for the end, and
/// hands out the headers of the chain from the last one down.
pub open spec fn answers_of_chain<E>(answers: Answers<E>, chain: Seq<Header>) -> bool {
    &&& chain.len() > 0
    &&& answers.end_info matches Ok(end_info) && end_info.hash@ == chain.last().spec_hash()
    &&& answers.end_header == Ok::<Header, E>(chain.last())
    &&& forall|i: int|
        0 <= i < chain.len() - 1 ==> #[trigger] answers.parents[i] == Ok::<Header, E>(
            chain[chain.len() - 2 - i],
        )
}

/// On a provider that has a chain from the origin to the end, the walk gives
/// the hash of the block at the end. Where the origin is the end, the chain
/// is one block, and the walk asks for no parent.
pub proof fn lemma_walk_of_chain<E>(
    origin_hash: Seq<u8>,
    origin_num: u64,
    end_num: u64,
    answers: Answers<E>,
    chain: Seq<Header>,
)
    requires
        origin_num <= end_num,
        chain.len() == end_num - origin_num + 1,
        is_chain(chain, origin_hash, origin_num, chain.last().spec_hash()),
        answers_of_chain(answers, chain),
    ensures
        walk_outcome(origin_hash, origin_num, end_num, answers) == Ok::<
            Seq<u8>,
            ConnectivityError<E>,
        >(chain.last().spec_hash()),
{
    lemma_walk_along_chain(answers, chain, (end_num - origin_num) as nat);
}

/// On a provider that has the chain `chain`, the walk stands after `count`
/// steps on the header that lies `count` below the last.
proof fn lemma_walk_along_chain<E>(answers: Answers<E>, chain: Seq<Header>, count: nat)
    requires
        count < chain.len(),
        answers_of_chain(answers, chain),
        forall|i: int|
            0 <= i < chain.len() - 1 ==> (#[trigger] chain[i + 1]).fields().parent_hash@
                == chain[i].spec_hash(),
    ensures
        reached(answers, count) == Ok::<Header, ConnectivityError<E>>(chain[chain.len() - 1 - count]),
    decreases count,
{
    if count > 0 {
        lemma_walk_along_chain(answers, chain, (count - 1) as nat);
        let at = chain.len() - 1 - count;
        assert(chain[at + 1] == chain[chain.len() - 1 - (count - 1)]);
        assert(answers.parents[count - 1] == Ok::<Header, E>(chain[chain.len() - 2 - (count - 1)]));
    }
}

/// An error of the provider ends the walk, and is the error of the walk:
/// that of the request for the block at the end, that of the request for
/// its header, or that of the request for a parent on the way.
pub proof fn lemma_walk_provider_error<E>(
    origin_hash: Seq<u8>,
    origin_num: u64,
    end_num: u64,
    answers: Answers<E>,
    at: nat,
    e: E,
)
    requires
        origin_num <= end_num,
        at <= end_num - origin_num,
        if at == 0 {
            answers.end_info == Err::<BlockInfo, E>(e) || (answers.end_info is Ok
                && answers.end_header == Err::<Header, E>(e))
        } else {
            reached(answers, (at - 1) as nat) is Ok && answers.parents[at - 1] == Err::<Header, E>(e)
        },
    ensures
        walk_outcome(origin_hash, origin_num, end_num, answers) == Err::<
            Seq<u8>,
            ConnectivityError<E>,
        >(ConnectivityError::Provider(e)),
{
    lemma_walk_ended(answers, at, (end_num - origin_num) as nat);
}

/// A header with another hash than the one that was asked for ends the
/// walk: the header for the block at the end, or the header for a parent on
/// the way.
pub proof fn lemma_walk_broken_link<E>(
    origin_hash: Seq<u8>,
    origin_num: u64,
    end_num: u64,
    answers: Answers<E>,
    at: nat,
)
    requires
        origin_num <= end_num,
        at <= end_num - origin_num,
        if at == 0 {
            answers.end_info matches Ok(end_info) && answers.end_header matches Ok(end_header)
                && end_header.spec_hash() != end_info.hash@
        } else {
            reached(answers, (at - 1) as nat) matches Ok(child) && answers.parents[at
                - 1] matches Ok(parent) && parent.spec_hash() != child.fields().parent_hash@
        },
    ensures
        walk_outcome(origin_hash, origin_num, end_num, answers) == Err::<
            Seq<u8>,
            ConnectivityError<E>,
        >(ConnectivityError::BrokenLink),
{
    lemma_walk_ended(answers, at, (end_num - origin_num) as nat);
}

/// The header at which the walk starts, where the header that the provider
/// handed out for the block at the end has the hash of that block.
pub fn start_walk<E>(end_info: &BlockInfo, end_header: Header) -> (r: Result<
    Header,
    ConnectivityError<E>,
>)
    ensures
        r == start_of::<E>(*end_info, end_header),
        end_header.wf(),
{
    let found = end_header.hash_slow();
    if found.eq_word(&end_info.hash) {
        Ok(end_header)
    } else {
        Err(ConnectivityError::BrokenLink)
    }
}

/// The header on which the walk goes on from `child`, where the header that
/// the provider handed out for its parent has the hash that `child` names.
pub fn link_parent<E>(child: &Header, parent: Header) -> (r: Result<Header, ConnectivityError<E>>)
    ensures
        r == link_of::<E>(*child, parent),
        parent.wf(),
{
    let found = parent.hash_slow();
    if found.eq_word(&child.parent_hash()) {
        Ok(parent)
    } else {
        Err(ConnectivityError::BrokenLink)
    }
}

/// The end of the walk: the hash of the header at the end, where the header
/// that the walk reached is the origin.
pub fn close_walk<E>(
    last: &Header,
    last_hash: B256,
    origin_hash: B256,
    origin_num: u64,
    end_hash: B256,
) -> (r: Result<B256, ConnectivityError<E>>)
    ensures
        r == if last_hash == origin_hash && last.fields().number == origin_num {
            Ok::<B256, ConnectivityError<E>>(end_hash)
        } else {
            Err::<B256, ConnectivityError<E>>(ConnectivityError::OriginMismatch)
        },
{
    if last_hash.eq_word(&origin_hash) && last.number() == origin_num {
        Ok(end_hash)
    } else {
        Err(ConnectivityError::OriginMismatch)
    }
}

/// Walks the parent links from the block that the provider names for
/// `end_num` down to the height of the origin, and checks that the walk ends
/// at the origin. Each header that the provider hands out is hashed again
/// and held against the hash that it was asked for. Returns the hash of the
/// header at the end. The range has an end: `end_num` is not zero. A range
/// whose end lies before the origin is refused before the provider is
/// asked. The outcome is that of `walk_outcome` on what the provider
/// answered.
pub fn check_l1_connectivity<P: ChainProvider>(
    provider: &mut P,
    origin_hash: B256,
    origin_num: u64,
    end_num: u64,
) -> (r: Result<B256, ConnectivityError<P::Error>>)
    requires
        end_num != 0,
    ensures
        r matches Ok(end_hash) ==> linked(origin_hash@, origin_num, end_hash@, end_num - origin_num),
        end_num < origin_num <==> r matches Err(ConnectivityError::InvalidRange),
        end_num >= origin_num ==> exists|answers: Answers<P::Error>|
            answered::<P>(answers, end_num, (end_num - origin_num) as nat) && #[trigger] walk_outcome(
                origin_hash@,
                origin_num,
                end_num,
                answers,
            ) == outcome_view(r),
{
    if end_num < origin_num {
        return Err(ConnectivityError::InvalidRange);
    }
    let steps = end_num - origin_num;
    let asked = provider.block_info_by_number(end_num);
    assert(exists|p: &mut P| #[trigger] call_ensures(P::block_info_by_number, (p, end_num), asked));
    let end_info = match asked {
        Ok(info) => info,
        Err(e) => {
            proof {
                let answers = Answers { end_info: asked, end_header: Err(e), parents: Seq::empty() };
                assert(answered::<P>(answers, end_num, 0));
                lemma_ended_walk_answered::<P>(answers, origin_hash@, origin_num, end_num, 0);
            }
            return Err(ConnectivityError::Provider(e));
        },
    };
    let first = provider.header_by_hash(end_info.hash);
    assert(header_answered::<P>(end_info.hash, first));
    let end_header = match first {
        Ok(header) => header,
        Err(e) => {
            proof {
                let answers = Answers { end_info: asked, end_header: first, parents: Seq::empty() };
                assert(answered::<P>(answers, end_num, 0));
                lemma_ended_walk_answered::<P>(answers, origin_hash@, origin_num, end_num, 0);
            }
            return Err(ConnectivityError::Provider(e));
        },
    };
    let end_hash = end_header.hash_slow();
    let ghost mut answers = Answers { end_info: asked, end_header: first, parents: Seq::empty() };
    let mut current = match start_walk(&end_info, end_header) {
        Ok(header) => header,
        Err(e) => {
            proof {
                assert(answered::<P>(answers, end_num, 0));
                lemma_ended_walk_answered::<P>(answers, origin_hash@, origin_num, end_num, 0);
            }
            return Err(e);
        },
    };
    let mut current_hash = end_hash;
    assert(answered::<P>(answers, end_num, 0));
    let ghost mut walked: Seq<Header> = seq![current];
    let mut done: u64 = 0;
    while done < steps
        invariant
            origin_num <= end_num,
            steps == end_num - origin_num,
            done <= steps,
            is_walk(walked, end_hash@),
            walked.len() == done + 1,
            walked[0] == current,
            current_hash@ == current.spec_hash(),
            answers.end_header matches Ok(header) && header.spec_hash() == end_hash@,
            answers.parents.len() == done,
            reached(answers, done as nat) == Ok::<Header, ConnectivityError<P::Error>>(current),
            answered::<P>(answers, end_num, done as nat),
        decreases steps - done,
    {
        let parent_hash = current.parent_hash();
        let answer = provider.header_by_hash(parent_hash);
        proof {
            assert(header_answered::<P>(current.fields().parent_hash, answer));
            let before = answers;
            answers = Answers {
                end_info: before.end_info,
                end_header: before.end_header,
                parents: before.parents.push(answer),
            };
            assert(answers.parents[done as int] == answer);
            lemma_one_more_answered::<P>(before, answers, end_num, done as nat, current, answer);
            assert(reached(answers, (done + 1) as nat) == match answer {
                Err(e) => Err::<Header, ConnectivityError<P::Error>>(ConnectivityError::Provider(e)),
                Ok(parent) => link_of(current, parent),
            });
        }
        let parent = match answer {
            Ok(header) => header,
            Err(e) => {
                proof {
                    lemma_ended_walk_answered::<P>(
                        answers,
                        origin_hash@,
                        origin_num,
                        end_num,
                        (done + 1) as nat,
                    );
                }
                return Err(ConnectivityError::Provider(e));
            },
        };
        let parent = match link_parent(&current, parent) {
            Ok(header) => header,
            Err(e) => {
                proof {
                    lemma_ended_walk_answered::<P>(
                        answers,
                        origin_hash@,
                        origin_num,
                        end_num,
                        (done + 1) as nat,
                    );
                }
                return Err(e);
            },
        };
        let found = parent.hash_slow();
        proof {
            lemma_walk_down(walked, parent, end_hash@);
            walked = seq![parent] + walked;
        }
        current = parent;
        current_hash = found;
        done = done + 1;
    }
    let r = close_walk(&current, current_hash, origin_hash, origin_num, end_hash);
    proof {
        if r is Ok {
            assert(is_chain(walked, origin_hash@, origin_num, end_hash@));
        }
        if current_hash@ == origin_hash@ {
            lemma_word_by_bytes(current_hash, origin_hash);
        }
        assert(reached(answers, (end_num - origin_num) as nat) == Ok::<
            Header,
            ConnectivityError<P::Error>,
        >(current));
        assert(walk_outcome(origin_hash@, origin_num, end_num, answers) == outcome_view(r));
    }
    r
}

/// Whether `walked` are the headers of a walk down from the header with the
/// hash `end_hash`, the lowest first: each next one names the one before as
/// its parent.
pub open spec fn is_walk(walked: Seq<Header>, end_hash: Seq<u8>) -> bool {
    &&& walked.len() > 0
    &&& forall|i: int| 0 <= i < walked.len() ==> (#[trigger] walked[i]).wf()
    &&& forall|i: int|
        0 <= i < walked.len() - 1 ==> (#[trigger] walked[i + 1]).fields().parent_hash@
            == walked[i].spec_hash()
    &&& walked.last().spec_hash() == end_hash
}

/// A walk goes on with the header that its lowest header names as its
/// parent.
proof fn lemma_walk_down(walked: Seq<Header>, parent: Header, end_hash: Seq<u8>)
    requires
        is_walk(walked, end_hash),
        parent.wf(),
        walked[0].fields().parent_hash@ == parent.spec_hash(),
    ensures
        is_walk(seq![parent] + walked, end_hash),
{
    let longer = seq![parent] + walked;
    assert forall|i: int| 0 <= i < longer.len() implies (#[trigger] longer[i]).wf() by {
        if i > 0 {
            assert(longer[i] == walked[i - 1]);
        }
    }
    assert forall|i: int| 0 <= i < longer.len() - 1 implies (#[trigger] longer[i
        + 1]).fields().parent_hash@ == longer[i].spec_hash() by {
        if i > 0 {
            assert(longer[i + 1] == walked[i - 1 + 1]);
            assert(longer[i] == walked[i - 1]);
        } else {
            assert(longer[1] == walked[0]);
        }
    }
    assert(longer.last() == walked.last());
}

/// Answers whose walk has ended after `at` steps, and that the provider can
/// have given up to there, are answers to the whole walk, and the walk gives
/// the error with which it ended.
proof fn lemma_ended_walk_answered<P: ChainProvider>(
    answers: Answers<P::Error>,
    origin_hash: Seq<u8>,
    origin_num: u64,
    end_num: u64,
    at: nat,
)
    requires
        origin_num <= end_num,
        at <= end_num - origin_num,
        reached(answers, at) is Err,
        answered::<P>(answers, end_num, at),
    ensures
        answered::<P>(answers, end_num, (end_num - origin_num) as nat),
        walk_outcome(origin_hash, origin_num, end_num, answers) == Err::<
            Seq<u8>,
            ConnectivityError<P::Error>,
        >(reached(answers, at)->Err_0),
{
    let steps = (end_num - origin_num) as nat;
    lemma_walk_ended(answers, at, steps);
    assert forall|i: int| 0 <= i < steps implies #[trigger] parent_answered::<P>(answers, i) by {
        if at <= i {
            lemma_walk_ended(answers, at, i as nat);
        }
    }
}

/// Answers that the provider can have given to a walk of `done` steps, with
/// the answer to the request for the parent of the header that the walk
/// stands on, are answers to a walk of one step more.
proof fn lemma_one_more_answered<P: ChainProvider>(
    before: Answers<P::Error>,
    after: Answers<P::Error>,
    end_num: u64,
    done: nat,
    child: Header,
    answer: Result<Header, P::Error>,
)
    requires
        answered::<P>(before, end_num, done),
        before.parents.len() == done,
        after.end_info == before.end_info,
        after.end_header == before.end_header,
        after.parents == before.parents.push(answer),
        reached(before, done) == Ok::<Header, ConnectivityError<P::Error>>(child),
        header_answered::<P>(child.fields().parent_hash, answer),
    ensures
        answered::<P>(after, end_num, done + 1),
        reached(after, done) == reached(before, done),
{
    lemma_reached_so_far(before, after, done);
    assert forall|i: int| 0 <= i < done + 1 implies #[trigger] parent_answered::<P>(after, i) by {
        lemma_reached_so_far(before, after, i as nat);
        if i < done {
            assert(after.parents[i] == before.parents[i]);
            assert(parent_answered::<P>(before, i));
        } else {
            assert(after.parents[i] == answer);
            assert(i as nat == done);
            assert(reached(after, i as nat) == Ok::<Header, ConnectivityError<P::Error>>(child));

        }
    }
}

/// Why the scenario does not go on.
#[derive(Debug, Clone, Copy, PartialEq, Eq)]
pub enum ScenarioError {
    /// The batch of the disputed block was read from a layer 1 block behind
    /// the end of the range.
    L1BoundExceeded { l1_end_number: u64, l1_batch_number: u64 },
    /// The safe head is not the block before the disputed block.
    SafeHeadMismatch { claimed_number: u64, safe_head_number: u64 },
    /// The payload does not follow the safe head.
    PayloadMismatch,
    /// The layer 1 origin is not the block that its header describes.
    OriginMismatch,
    /// The executed block does not follow the block that it was executed on.
    ExecutionMismatch,
    /// The executed block has another number than the disputed block.
    BlockNumberMismatch { claimed_number: u64, executed_number: u64 },
    /// The output root of the executed block is not the claimed one.
    ClaimMismatch { claimed: B256, computed: B256 },
}

/// What the derivation delivers for the disputed block.
#[derive(Debug)]
pub struct Derivation {
    /// The layer 1 origin of the pipeline before it produced the payload.
    pub l1_origin_block: BlockInfo,
    /// The header of the layer 1 origin.
    pub l1_origin_header: Header,
    /// The payload of the disputed block.
    pub payload: L2AttributesWithParent,
    /// The layer 1 block that the batch of the payload was read from.
    pub l1_batch_block: BlockInfo,
    /// The header of the layer 2 safe head, which the payload follows.
    pub l2_safe_head_header: Sealed,
}

/// What the execution of a block delivers.
#[derive(Debug)]
pub struct Execution {
    /// The header of the executed block.
    pub header: Header,
    /// The storage root of the withdrawals contract after the block.
    pub withdrawals_storage_root: B256,
}

/// An executed block, as far as the output root reads it.
#[derive(Debug, Clone, Copy, PartialEq, Eq)]
pub struct Executed {
    /// The number of the block.
    pub number: u64,
    /// The root of the state after the block.
    pub state_root: B256,
    /// The storage root of the withdrawals contract after the block.
    pub withdrawals_storage_root: B256,
    /// The hash of the block.
    pub block_hash: B256,
}

/// Whether the batch block lies within the layer 1 range. A range whose end
/// is zero has no end.
pub open spec fn within_l1_range(l1_end_number: u64, l1_batch_number: u64) -> bool {
    l1_end_number == 0 || l1_end_number >= l1_batch_number
}

/// Whether `block` is the block that `header` describes: its hash is the
/// Keccak-256 digest of the header's encoding, and its number, parent hash
/// and timestamp are those of the header.
pub open spec fn describes(header: Header, block: BlockInfo) -> bool {
    &&& block.hash@ == header.spec_hash()
    &&& block.number == header.fields().number
    &&& block.parent_hash == header.fields().parent_hash
    &&& block.timestamp == header.fields().timestamp
}

/// What becomes of what the derivation delivered, under the boot inputs
/// `boot`: the attributes, the safe head and the origin, where the batch was
/// read within the layer 1 range, the safe head is the block before the
/// disputed block, the payload names the safe head as its parent, and the
/// origin is the block that its header describes.
pub open spec fn derivation_outcome(boot: BootInfo, derived: Derivation) -> Result<
    (L2PayloadAttributes, Sealed, BlockInfo),
    ScenarioError,
> {
    let safe_head = derived.l2_safe_head_header;
    let parent = derived.payload.parent.block_info;
    if !within_l1_range(boot.l1_end_number, derived.l1_batch_block.number) {
        Err(
            ScenarioError::L1BoundExceeded {
                l1_end_number: boot.l1_end_number,
                l1_batch_number: derived.l1_batch_block.number,
            },
        )
    } else if safe_head.header().fields().number + 1 != boot.l2_claim_block {
        Err(
            ScenarioError::SafeHeadMismatch {
                claimed_number: boot.l2_claim_block,
                safe_head_number: safe_head.header().fields().number,
            },
        )
    } else if parent.hash != safe_head.seal() || parent.number != safe_head.header().fields().number {
        Err(ScenarioError::PayloadMismatch)
    } else if !describes(derived.l1_origin_header, derived.l1_origin_block) {
        Err(ScenarioError::OriginMismatch)
    } else {
        Ok((derived.payload.attributes, derived.l2_safe_head_header, derived.l1_origin_block))
    }
}

/// Whether a header continues the chain on `parent`: it names `parent` as
/// its parent and has the next number.
pub open spec fn follows(header: Header, parent: Sealed) -> bool {
    &&& header.fields().parent_hash == parent.seal()
    &&& header.fields().number == parent.header().fields().number + 1
}

/// Whether `trail` is the layer 1 range in `held`: a trail of headers from
/// the origin up to the block that the search from the block with the hash
/// `head` finds for the number `end_num`.
pub open spec fn is_range(
    held: Map<Seq<u8>, Seq<u8>>,
    head: B256,
    origin_hash: B256,
    origin_num: u64,
    end_num: u64,
    trail: Seq<(B256, HeaderFields)>,
) -> bool {
    &&& origin_num <= end_num
    &&& is_trail(held, trail)
    &&& trail.len() == end_num - origin_num + 1
    &&& trail[0].0 == origin_hash
    &&& trail[0].1.number == origin_num
    &&& block_on_chain(held, head, end_num) == Some(
        Ok::<BlockInfo, ProviderError>(block_of(trail.last().0, trail.last().1)),
    )
}

/// Where the cache holds a trail of headers from the origin up to the head,
/// the part of the trail up to the block with the number `end_num` is the
/// layer 1 range.
pub proof fn lemma_range_of_trail(
    held: Map<Seq<u8>, Seq<u8>>,
    head: B256,
    origin_hash: B256,
    origin_num: u64,
    end_num: u64,
    trail: Seq<(B256, HeaderFields)>,
)
    requires
        is_trail(held, trail),
        trail.len() > 0,
        trail[0].0 == origin_hash,
        trail[0].1.number == origin_num,
        trail.last().0 == head,
        origin_num <= end_num <= trail.last().1.number,
    ensures
        is_range(
            held,
            head,
            origin_hash,
            origin_num,
            end_num,
            trail.take(end_num - origin_num + 1),
        ),
{
    let top = trail.len() - 1;
    let at = end_num - origin_num;
    lemma_trail_found(held, trail, top);
    lemma_trail_found(held, trail, at);
    let lower = trail.take(at + 1);
    let upper = trail.skip(at);
    assert(is_trail(held, lower)) by {
        assert forall|i: int| 0 <= i < lower.len() implies header_in(held, (#[trigger] lower[i]).0@)
            == Some(lower[i].1) by {
            assert(lower[i] == trail[i]);
        }
        assert forall|i: int| 0 <= i < lower.len() - 1 implies (#[trigger] lower[i
            + 1]).1.parent_hash == lower[i].0 && lower[i + 1].1.number == lower[i].1.number + 1 by {
            assert(lower[i + 1] == trail[i + 1]);
            assert(lower[i] == trail[i]);
        }
    }
    assert(is_trail(held, upper)) by {
        assert forall|i: int| 0 <= i < upper.len() implies header_in(held, (#[trigger] upper[i]).0@)
            == Some(upper[i].1) by {
            assert(upper[i] == trail[at + i]);
        }
        assert forall|i: int| 0 <= i < upper.len() - 1 implies (#[trigger] upper[i
            + 1]).1.parent_hash == upper[i].0 && upper[i + 1].1.number == upper[i].1.number + 1 by {
            assert(upper[i + 1] == trail[at + i + 1]);
            assert(upper[i] == trail[at + i]);
        }
    }
    lemma_trail_found(held, upper, top - at);
    assert(upper[top - at] == trail[top]);
    assert(upper[0] == trail[at]);
    assert(lower.last() == trail[at]);
    assert(lower[0] == trail[0]);
}

/// The scenario of the client.
#[derive(Debug)]
pub struct Scenario<P> {
    /// The boot inputs.
    pub boot: BootInfo,
    l1_provider: P,
    executor: Option<Executed>,
}

impl<R: PreimageOracleClient, H: HintWriterClient> Scenario<OracleL1ChainProvider<R, H>> {
    /// What the oracle's cache holds.
    pub closed spec fn held(self) -> Map<Seq<u8>, Seq<u8>> {
        self.l1_provider.held()
    }

    /// The prologue: makes the oracle, over the prebuilt preimages and the
    /// reader, loads the boot inputs from it, and makes the provider of the
    /// layer 1 chain that ends at the layer 1 head of the boot inputs.
    pub fn new(prebuilt_preimage: Option<Vec<(PreimageKey, Vec<u8>)>>, reader: R, hinter: H) -> (r:
        Result<Scenario<OracleL1ChainProvider<R, H>>, BootInvalid>)
        ensures
            r matches Ok(scenario) ==> scenario.executed() is None && holds_boot(scenario.held())
                && boot_matches(scenario.boot_info(), scenario.held()),
            r matches Ok(scenario) ==> extends(
                prebuilt_cache(prebuilt_preimage),
                scenario.held(),
            ),
            exists|after: Map<Seq<u8>, Seq<u8>>| #[trigger]
                loads_from::<R>(prebuilt_cache(prebuilt_preimage), 1, failure_of(r), after) && (r
                    is Ok ==> after == r->Ok_0.held()),
            holds_boot(prebuilt_cache(prebuilt_preimage)) ==> match r {
                Ok(scenario) => scenario.held() == prebuilt_cache(prebuilt_preimage),
                Err(e) => first_fault(prebuilt_cache(prebuilt_preimage)) == Some(e),
            },
    {
        let mut oracle = CachingOracle::new(prebuilt_preimage, reader);
        let ghost start = oracle.held();
        let loaded = BootInfo::load(&mut oracle);
        assert(loads_from::<R>(start, 1, failure_of(loaded), oracle.held()));
        match loaded {
            Ok(boot) => {
                let l1_provider = OracleL1ChainProvider::new(boot.l1_head, oracle, hinter);
                Ok(Scenario { boot, l1_provider, executor: None })
            },
            Err(e) => Err(e),
        }
    }

    /// Checks that the hash chain links from the origin to the end of the
    /// layer 1 range, and returns the hash of the block at the end. The walk
    /// is that of the free function of the same name, over the provider of
    /// the scenario. The range has an end: `end_num` is not zero. Where the
    /// cache holds the range, the walk reads nothing from the reader and ends
    /// with the hash of the range's last block. The provider hands out no
    /// header under another hash than its own, so no link is found broken.
    pub fn check_l1_connectivity(&mut self, origin_hash: B256, origin_num: u64, end_num: u64) -> (r:
        Result<B256, ConnectivityError<ProviderError>>)
        requires
            end_num != 0,
        ensures
            final(self).boot_info() == old(self).boot_info(),
            final(self).executed() == old(self).executed(),
            final(self).provider().head() == old(self).provider().head(),
            extends(old(self).held(), final(self).held()),
            r matches Ok(end_hash) ==> linked(
                origin_hash@,
                origin_num,
                end_hash@,
                end_num - origin_num,
            ),
            end_num < origin_num <==> r matches Err(ConnectivityError::InvalidRange),
            !(r matches Err(ConnectivityError::BrokenLink)),
            end_num >= origin_num ==> exists|answers: Answers<ProviderError>|
                answered::<OracleL1ChainProvider<R, H>>(
                    answers,
                    end_num,
                    (end_num - origin_num) as nat,
                ) && #[trigger] walk_outcome(origin_hash@, origin_num, end_num, answers)
                    == outcome_view(r),
            forall|trail: Seq<(B256, HeaderFields)>| #[trigger]
                is_range(
                    old(self).held(),
                    old(self).provider().head(),
                    origin_hash,
                    origin_num,
                    end_num,
                    trail,
                ) ==> r == Ok::<B256, ConnectivityError<ProviderError>>(trail.last().0)
                    && final(self).held() == old(self).held(),
    {
        if end_num < origin_num {
            return Err(ConnectivityError::InvalidRange);
        }
        let ghost held = self.held();
        let ghost head = self.provider().head();
        let ghost ranged = exists|trail: Seq<(B256, HeaderFields)>|
            is_range(held, head, origin_hash, origin_num, end_num, trail);
        let ghost trail = choose|trail: Seq<(B256, HeaderFields)>|
            is_range(held, head, origin_hash, origin_num, end_num, trail);
        let steps = end_num - origin_num;
        let asked = self.l1_provider.block_info_by_number(end_num);
        assert(exists|p: &mut OracleL1ChainProvider<R, H>| #[trigger]
            call_ensures(OracleL1ChainProvider::<R, H>::block_info_by_number, (p, end_num), asked));
        let end_info = match asked {
            Ok(info) => info,
            Err(e) => {
                proof {
                    let answers = Answers {
                        end_info: asked,
                        end_header: Err(e),
                        parents: Seq::empty(),
                    };
                    assert(answered::<OracleL1ChainProvider<R, H>>(answers, end_num, 0));
                    lemma_ended_walk_answered::<OracleL1ChainProvider<R, H>>(
                        answers,
                        origin_hash@,
                        origin_num,
                        end_num,
                        0,
                    );
                }
                return Err(ConnectivityError::Provider(e));
            },
        };
        proof {
            if ranged {
                assert(header_in(held, trail[steps as int].0@) == Some(trail[steps as int].1));
            }
        }
        let first = self.l1_provider.header_by_hash(end_info.hash);
        assert(header_answered::<OracleL1ChainProvider<R, H>>(end_info.hash, first));
        let ghost mut answers = Answers { end_info: asked, end_header: first, parents: Seq::empty() };
        assert(answered::<OracleL1ChainProvider<R, H>>(answers, end_num, 0));
        let end_header = match first {
            Ok(header) => header,
            Err(e) => {
                proof {
                    lemma_ended_walk_answered::<OracleL1ChainProvider<R, H>>(
                        answers,
                        origin_hash@,
                        origin_num,
                        end_num,
                        0,
                    );
                }
                return Err(ConnectivityError::Provider(e));
            },
        };
        let end_hash = end_header.hash_slow();
        proof {
            lemma_word_by_bytes(end_hash, end_info.hash);
        }
        let mut current = match start_walk(&end_info, end_header) {
            Ok(header) => header,
            Err(e) => {
                proof {
                    lemma_ended_walk_answered::<OracleL1ChainProvider<R, H>>(
                        answers,
                        origin_hash@,
                        origin_num,
                        end_num,
                        0,
                    );
                }
                return Err(e);
            },
        };
        let mut current_hash = end_hash;
        let ghost mut walked: Seq<Header> = seq![current];
        let mut done: u64 = 0;
        while done < steps
            invariant
                origin_num <= end_num,
                steps == end_num - origin_num,
                done <= steps,
                is_walk(walked, end_hash@),
                walked.len() == done + 1,
                walked[0] == current,
                current_hash@ == current.spec_hash(),
                self.boot_info() == old(self).boot_info(),
                self.executed() == old(self).executed(),
                held == old(self).held(),
                head == old(self).provider().head(),
                self.provider().head() == head,
                extends(held, self.held()),
                answers.end_header matches Ok(header) && header.spec_hash() == end_hash@,
                answers.parents.len() == done,
                reached(answers, done as nat) == Ok::<Header, ConnectivityError<ProviderError>>(
                    current,
                ),
                answered::<OracleL1ChainProvider<R, H>>(answers, end_num, done as nat),
                ranged == exists|trail: Seq<(B256, HeaderFields)>|
                    is_range(held, head, origin_hash, origin_num, end_num, trail),
                ranged ==> is_range(held, head, origin_hash, origin_num, end_num, trail),
                ranged ==> self.held() == held && current_hash == trail[steps - done].0
                    && current.fields() == trail[steps - done].1 && end_hash == trail.last().0,
            decreases steps - done,
        {
            let parent_hash = current.parent_hash();
            proof {
                if ranged {
                    let at = steps - done - 1;
                    assert(trail[at + 1] == trail[steps - done]);
                    assert(header_in(held, trail[at].0@) == Some(trail[at].1));
                }
            }
            let answer = self.l1_provider.header_by_hash(parent_hash);
            proof {
                assert(header_answered::<OracleL1ChainProvider<R, H>>(
                    current.fields().parent_hash,
                    answer,
                ));
                let so_far = answers;
                answers = Answers {
                    end_info: so_far.end_info,
                    end_header: so_far.end_header,
                    parents: so_far.parents.push(answer),
                };
                assert(answers.parents[done as int] == answer);
                lemma_one_more_answered::<OracleL1ChainProvider<R, H>>(
                    so_far,
                    answers,
                    end_num,
                    done as nat,
                    current,
                    answer,
                );
                assert(reached(answers, (done + 1) as nat) == match answer {
                    Err(e) => Err::<Header, ConnectivityError<ProviderError>>(
                        ConnectivityError::Provider(e),
                    ),
                    Ok(parent) => link_of(current, parent),
                });
            }
            let parent = match answer {
                Ok(header) => header,
                Err(e) => {
                    proof {
                        lemma_ended_walk_answered::<OracleL1ChainProvider<R, H>>(
                            answers,
                            origin_hash@,
                            origin_num,
                            end_num,
                            (done + 1) as nat,
                        );
                    }
                    return Err(ConnectivityError::Provider(e));
                },
            };
            let parent = match link_parent(&current, parent) {
                Ok(header) => header,
                Err(e) => {
                    proof {
                        lemma_ended_walk_answered::<OracleL1ChainProvider<R, H>>(
                            answers,
                            origin_hash@,
                            origin_num,
                            end_num,
                            (done + 1) as nat,
                        );
                    }
                    return Err(e);
                },
            };
            let found = parent.hash_slow();
            proof {
                lemma_word_by_bytes(found, parent_hash);
                lemma_walk_down(walked, parent, end_hash@);
                walked = seq![parent] + walked;
            }
            current = parent;
            current_hash = found;
            done = done + 1;
        }
        let r = close_walk(&current, current_hash, origin_hash, origin_num, end_hash);
        proof {
            if r is Ok {
                assert(is_chain(walked, origin_hash@, origin_num, end_hash@));
            }
            if current_hash@ == origin_hash@ {
                lemma_word_by_bytes(current_hash, origin_hash);
            }
            assert(reached(answers, (end_num - origin_num) as nat) == Ok::<
                Header,
                ConnectivityError<ProviderError>,
            >(current));
            assert(walk_outcome(origin_hash@, origin_num, end_num, answers) == outcome_view(r));
            assert forall|other: Seq<(B256, HeaderFields)>| #[trigger]
                is_range(held, head, origin_hash, origin_num, end_num, other) implies r == Ok::<
                B256,
                ConnectivityError<ProviderError>,
            >(other.last().0) by {
                assert(ranged);
                assert(block_of(other.last().0, other.last().1).hash == block_of(
                    trail.last().0,
                    trail.last().1,
                ).hash);
            }
        }
        r
    }
}

impl<P: ChainProvider> Scenario<P> {
    /// The boot inputs: what the field `boot` holds.
    pub closed spec fn boot_info(self) -> BootInfo {
        self.boot
    }

    /// The boot inputs.
    pub fn boot_inputs(&self) -> (boot: BootInfo)
        ensures
            boot == self.boot_info(),
    {
        self.boot
    }

    /// The block that was executed last, if any.
    pub closed spec fn executed(self) -> Option<Executed> {
        self.executor
    }

    /// The provider of the layer 1 chain.
    pub closed spec fn provider(self) -> P {
        self.l1_provider
    }

    /// A scenario with the boot inputs `boot` over the layer 1 chain provider
    /// `l1_provider`. No block is executed yet.
    pub fn with_provider(boot: BootInfo, l1_provider: P) -> (scenario: Scenario<P>)
        ensures
            scenario.boot_info() == boot,
            scenario.executed() is None,
            scenario.provider() == l1_provider,
    {
        Scenario { boot, l1_provider, executor: None }
    }

    /// Takes what the derivation delivered for the disputed block. The batch
    /// must have been read within the layer 1 range, the safe head must be the
    /// block before the disputed block, the payload must follow the safe
    /// head, and the origin must be the block that its header describes; then
    /// the attributes, the safe head and the origin come back. Both come back
    /// with hashes that are the digests of their headers' encodings. The walk
    /// of `check_l1_connectivity` then holds the origin against the chain.
    pub fn derive(&mut self, derived: Derivation) -> (r: Result<
        (L2PayloadAttributes, Sealed, BlockInfo),
        ScenarioError,
    >)
        ensures
            *final(self) == *old(self),
            r == derivation_outcome(old(self).boot_info(), derived),
            r matches Ok(out) ==> out.1.wf() && out.1.seal()@ == out.1.header().spec_hash()
                && out.2.hash@ == derived.l1_origin_header.spec_hash() && out.2.number
                == derived.l1_origin_header.fields().number,
    {
        if self.boot.l1_end_number > 0 && self.boot.l1_end_number < derived.l1_batch_block.number {
            return Err(
                ScenarioError::L1BoundExceeded {
                    l1_end_number: self.boot.l1_end_number,
                    l1_batch_number: derived.l1_batch_block.number,
                },
            );
        }
        let safe_head_number = derived.l2_safe_head_header.inner().number();
        if self.boot.l2_claim_block == 0 || safe_head_number != self.boot.l2_claim_block - 1 {
            return Err(
                ScenarioError::SafeHeadMismatch {
                    claimed_number: self.boot.l2_claim_block,
                    safe_head_number,
                },
            );
        }
        let safe_head_hash = derived.l2_safe_head_header.hash();
        if !derived.payload.parent.block_info.hash.eq_word(&safe_head_hash)
            || derived.payload.parent.block_info.number != safe_head_number {
            return Err(ScenarioError::PayloadMismatch);
        }
        let origin = &derived.l1_origin_block;
        let origin_hash = derived.l1_origin_header.hash_slow();
        if !origin.hash.eq_word(&origin_hash) || origin.number != derived.l1_origin_header.number()
            || !origin.parent_hash.eq_word(&derived.l1_origin_header.parent_hash())
            || origin.timestamp != derived.l1_origin_header.timestamp() {
            return Err(ScenarioError::OriginMismatch);
        }
        Ok((derived.payload.attributes, derived.l2_safe_head_header, derived.l1_origin_block))
    }

    /// Takes what the execution of `attributes` on the safe head delivered.
    /// The attributes must name the safe head as their parent, and the
    /// executed header must follow the safe head; then the block is kept and
    /// its number comes back.
    pub fn execute_block(
        &mut self,
        attributes: L2PayloadAttributes,
        l2_safe_head_header: Sealed,
        execution: Execution,
    ) -> (r: Result<u64, ScenarioError>)
        ensures
            final(self).boot_info() == old(self).boot_info(),
            final(self).provider() == old(self).provider(),
            l2_safe_head_header.wf(),
            r == if attributes.parent_hash == l2_safe_head_header.seal() && follows(
                execution.header,
                l2_safe_head_header,
            ) {
                Ok::<u64, ScenarioError>(execution.header.fields().number)
            } else {
                Err::<u64, ScenarioError>(ScenarioError::ExecutionMismatch)
            },
            match r {
                Ok(number) => final(self).executed() matches Some(block) && block.number == number
                    && block.state_root == execution.header.fields().state_root
                    && block.withdrawals_storage_root == execution.withdrawals_storage_root
                    && block.block_hash@ == execution.header.spec_hash(),
                Err(_) => final(self).executed() == old(self).executed(),
            },
    {
        let parent_hash = l2_safe_head_header.hash();
        let parent_number = l2_safe_head_header.inner().number();
        let number = execution.header.number();
        if !attributes.parent_hash.eq_word(&parent_hash) || !execution.header.parent_hash().eq_word(
            &parent_hash,
        ) || parent_number == u64::MAX || number != parent_number + 1 {
            return Err(ScenarioError::ExecutionMismatch);
        }
        let block_hash = execution.header.hash_slow();
        self.executor = Some(
            Executed {
                number,
                state_root: execution.header.state_root(),
                withdrawals_storage_root: execution.withdrawals_storage_root,
                block_hash,
            },
        );
        Ok(number)
    }

    /// Whether a block was executed.
    pub fn has_executed(&self) -> (yes: bool)
        ensures
            yes == self.executed() is Some,
    {
        self.executor.is_some()
    }

    /// The output root of the block that was executed last. There is one
    /// only after a block was executed.
    pub fn compute_output_root(&mut self) -> (r: Result<B256, ScenarioError>)
        requires
            old(self).executed() is Some,
        ensures
            *final(self) == *old(self),
            r matches Ok(root) && root@ == output_root_of(
                old(self).executed()->Some_0.state_root@,
                old(self).executed()->Some_0.withdrawals_storage_root@,
                old(self).executed()->Some_0.block_hash@,
            ),
    {
        let block = self.executor.unwrap();
        Ok(output_root(&block.state_root, &block.withdrawals_storage_root, &block.block_hash))
    }

    /// Holds the number and the output root of the executed block against
    /// the claim of the boot inputs.
    pub fn check_claim(&self, number: u64, output_root: B256) -> (r: Result<(), ScenarioError>)
        ensures
            r == if number != self.boot_info().l2_claim_block {
                Err::<(), ScenarioError>(
                    ScenarioError::BlockNumberMismatch {
                        claimed_number: self.boot_info().l2_claim_block,
                        executed_number: number,
                    },
                )
            } else if output_root != self.boot_info().l2_claim {
                Err::<(), ScenarioError>(
                    ScenarioError::ClaimMismatch {
                        claimed: self.boot_info().l2_claim,
                        computed: output_root,
                    },
                )
            } else {
                Ok::<(), ScenarioError>(())
            },
    {
        if number != self.boot.l2_claim_block {
            return Err(
                ScenarioError::BlockNumberMismatch {
                    claimed_number: self.boot.l2_claim_block,
                    executed_number: number,
                },
            );
        }
        if !output_root.eq_word(&self.boot.l2_claim) {
            return Err(
                ScenarioError::ClaimMismatch { claimed: self.boot.l2_claim, computed: output_root },
            );
        }
        Ok(())
    }
}

} // verus!
