//! Precompile calls that the host runs for the client.
//!
//! The client tells the host the address of the precompile and the input of
//! the call, and reads the result under the key of the two. A first byte of
//! zero says that the call failed; behind any other first byte the output
//! follows.

use crate::digest::keccak256;
use crate::digest::keccak256_digest;
use crate::hint::hint_text;
use crate::hint::joined;
use crate::hint::HintType;
use crate::key::PreimageKey;
use crate::key::PreimageKeyType;
use crate::l1_provider::extends;
use crate::l1_provider::hinted;
use crate::l1_provider::HintWriterClient;
use crate::oracle::fetched_as;
use crate::oracle::value_view;
use crate::oracle::CachingOracle;
use crate::oracle::OracleError;
use crate::oracle::PreimageOracleClient;
use crate::primitives::Address;
use vstd::prelude::*;

verus! {

/// Why a precompile call has no output.
#[derive(Debug, Clone, Copy, PartialEq, Eq, Hash, Structural)]
pub enum PrecompileError {
    /// The oracle has no result for the call.
    Oracle(OracleError),
    /// The result is empty.
    NoResult,
    /// The call failed on the host.
    Failed,
}

/// The 32 bytes of the key of the call of the precompile at `address` with
/// the input `input`: the tag of a precompile key, then the digest of the
/// address and the input without its first byte.
pub open spec fn call_encoding(address: Seq<u8>, input: Seq<u8>) -> Seq<u8> {
    seq![PreimageKeyType::Precompile.spec_tag()] + keccak256_digest(address + input).skip(1)
}

/// What the result `result` of a call stands for: the output behind the
/// first byte, unless that byte is zero.
pub open spec fn call_output(result: Seq<u8>) -> Result<Seq<u8>, PrecompileError> {
    if result.len() == 0 {
        Err(PrecompileError::NoResult)
    } else if result[0] == 0 {
        Err(PrecompileError::Failed)
    } else {
        Ok(result.skip(1))
    }
}

/// What becomes of what the oracle gave for a call: a result stands for its
/// output, and without a result there is none.
pub open spec fn call_outcome(got: Result<Seq<u8>, OracleError>) -> Result<Seq<u8>, PrecompileError> {
    match got {
        Ok(result) => call_output(result),
        Err(e) => Err(PrecompileError::Oracle(e)),
    }
}

/// An output, or why there is none, with the output as a sequence of bytes.
pub open spec fn output_view(r: Result<Vec<u8>, PrecompileError>) -> Result<
    Seq<u8>,
    PrecompileError,
> {
    match r {
        Ok(output) => Ok(output@),
        Err(e) => Err(e),
    }
}

/// The output of the call of the precompile at `address` with the input
/// `input`. The call is announced to the host if the cache does not hold its
/// result; then the result is what the reader of the oracle delivers for
/// the key of the call.
pub fn call_precompile<R: PreimageOracleClient, H: HintWriterClient>(
    oracle: &mut CachingOracle<R>,
    hinter: &mut H,
    address: &Address,
    input: &[u8],
) -> (r: Result<Vec<u8>, PrecompileError>)
    ensures
        extends(old(oracle).held(), final(oracle).held()),
        old(oracle).held().contains_key(call_encoding(address@, input@)) ==> final(oracle).held()
            == old(oracle).held() && match r {
            Ok(output) => call_output(old(oracle).held()[call_encoding(address@, input@)]) == Ok::<
                Seq<u8>,
                PrecompileError,
            >(output@),
            Err(e) => call_output(old(oracle).held()[call_encoding(address@, input@)]) == Err::<
                Seq<u8>,
                PrecompileError,
            >(e),
        },
        r matches Ok(output) ==> final(oracle).held().contains_key(
            call_encoding(address@, input@),
        ) && call_output(final(oracle).held()[call_encoding(address@, input@)]) == Ok::<
            Seq<u8>,
            PrecompileError,
        >(output@),
        !old(oracle).held().contains_key(call_encoding(address@, input@)) ==> hinted::<H>(
            hint_text(HintType::L1Precompile, address@ + input@),
        ),
        !old(oracle).held().contains_key(call_encoding(address@, input@)) ==> exists|
            got: Result<Seq<u8>, OracleError>,
        | #[trigger]
            fetched_as::<R>(call_encoding(address@, input@), got) && output_view(r) == call_outcome(
                got,
            ),
{
    let mut call: Vec<u8> = Vec::new();
    call.extend_from_slice(address.0.as_slice());
    let ghost head = call@;
    call.extend_from_slice(input);
    assert(head =~= address@);
    assert(call@ =~= address@ + input@);
    let digest = keccak256(call.as_slice());
    let key = PreimageKey::new(digest.0, PreimageKeyType::Precompile);
    assert(key.encoding() =~= call_encoding(address@, input@));
    if !oracle.holds(&key) {
        let parts: [&[u8]; 2] = [address.0.as_slice(), input];
        let hint = HintType::L1Precompile.encode_with(parts.as_slice());
        let _ = hinter.write(hint.as_str());
        proof {
            let views = parts@.map_values(|part: &[u8]| part@);
            assert(views =~= seq![address@, input@]);
            assert(seq![address@, input@] =~= seq![address@].push(input@));
            seq![address@].lemma_flatten_push(input@);
            assert(seq![address@] =~= Seq::<Seq<u8>>::empty().push(address@));
            Seq::<Seq<u8>>::empty().lemma_flatten_push(address@);
            assert(joined(parts@) =~= address@ + input@);
            assert(hinted::<H>(hint_text(HintType::L1Precompile, address@ + input@)));
        }
    }
    let got = oracle.get(key);
    proof {
        if !old(oracle).held().contains_key(call_encoding(address@, input@)) {
            assert(fetched_as::<R>(call_encoding(address@, input@), value_view(got)));
        }
    }
    let result = match got {
        Ok(result) => result,
        Err(e) => {
            return Err(PrecompileError::Oracle(e));
        },
    };
    if result.len() == 0 {
        return Err(PrecompileError::NoResult);
    }
    if result[0] == 0 {
        return Err(PrecompileError::Failed);
    }
    let mut output: Vec<u8> = Vec::new();
    output.extend_from_slice(vstd::slice::slice_subrange(result.as_slice(), 1, result.len()));
    assert(output@ =~= result@.skip(1));
    Ok(output)
}

} // verus!
