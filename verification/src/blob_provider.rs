//! Blobs from the preimage oracle.
//!
//! Under the key of a blob's hash the oracle holds the blob's commitment, and
//! under a key of the commitment and an index it holds each of the 4096 field
//! elements of the blob.

use crate::digest::keccak256;
use crate::digest::keccak256_digest;
use crate::errors::BlobProviderError;
use crate::hint::hint_text;
use crate::hint::lemma_joined_one;
use crate::hint::HintType;
use crate::key::binds;
use crate::key::pow256;
use crate::key::PreimageKey;
use crate::key::PreimageKeyType;
use crate::l1_provider::extends;
use crate::l1_provider::hinted;
use crate::l1_provider::HintWriterClient;
use crate::oracle::CachingOracle;
use crate::oracle::PreimageOracleClient;
use crate::primitives::Blob;
use crate::primitives::BlockInfo;
use crate::primitives::IndexedBlobHash;
use crate::traits::BlobProvider;
use crate::trie::lemma_extends_transitive;
use vstd::prelude::*;

verus! {

/// The number of field elements of a blob.
pub const FIELD_ELEMENTS_PER_BLOB: u64 = 4096;

/// The number of bytes of a field element.
pub const BYTES_PER_FIELD_ELEMENT: usize = 32;

/// The number of bytes of a commitment.
pub const BYTES_PER_COMMITMENT: usize = 48;

/// The eight bytes of `n`, the highest first.
pub open spec fn be_bytes_u64(n: u64) -> Seq<u8> {
    Seq::new(8, |i: int| ((n as int / pow256(7 - i)) % 256) as u8)
}

/// What the host is told about a blob: its hash, its index and the time of
/// its block.
pub open spec fn blob_request(hash: Seq<u8>, index: u64, timestamp: u64) -> Seq<u8> {
    hash + be_bytes_u64(index) + be_bytes_u64(timestamp)
}

/// The 32 bytes of the key of the commitment of the blob with the hash
/// `hash`.
pub open spec fn commitment_encoding(hash: Seq<u8>) -> Seq<u8> {
    seq![PreimageKeyType::Sha256.spec_tag()] + hash.skip(1)
}

/// What names a field element: the commitment, 24 zero bytes, and the index
/// of the element.
pub open spec fn element_locator(commitment: Seq<u8>, index: u64) -> Seq<u8> {
    commitment + Seq::new(24, |i: int| 0u8) + be_bytes_u64(index)
}

/// The 32 bytes of the key of a field element.
pub open spec fn element_encoding(commitment: Seq<u8>, index: u64) -> Seq<u8> {
    seq![PreimageKeyType::Blob.spec_tag()] + keccak256_digest(
        element_locator(commitment, index),
    ).skip(1)
}

/// Whether `held` holds the commitment of the blob with the hash `hash`: 48
/// bytes that the key of the hash binds.
pub open spec fn holds_commitment(held: Map<Seq<u8>, Seq<u8>>, hash: Seq<u8>) -> bool {
    &&& held.contains_key(commitment_encoding(hash))
    &&& held[commitment_encoding(hash)].len() == BYTES_PER_COMMITMENT
    &&& binds(PreimageKeyType::Sha256, hash.skip(1), held[commitment_encoding(hash)])
}

/// Whether `held` holds the field element with the index `index` of the blob
/// with the commitment `commitment`: 32 bytes under the element's key.
pub open spec fn holds_element(held: Map<Seq<u8>, Seq<u8>>, commitment: Seq<u8>, index: u64) -> bool {
    &&& held.contains_key(element_encoding(commitment, index))
    &&& held[element_encoding(commitment, index)].len() == BYTES_PER_FIELD_ELEMENT
}

/// The bytes of the blob with the hash `hash`: its field elements one after
/// the other, as far as `held` holds the commitment and all the elements.
pub open spec fn blob_in(held: Map<Seq<u8>, Seq<u8>>, hash: Seq<u8>) -> Option<Seq<u8>> {
    if holds_commitment(held, hash) && forall|index: u64|
        index < FIELD_ELEMENTS_PER_BLOB ==> #[trigger] holds_element(
            held,
            held[commitment_encoding(hash)],
            index,
        ) {
        let commitment = held[commitment_encoding(hash)];
        Some(
            Seq::new(
                (FIELD_ELEMENTS_PER_BLOB * BYTES_PER_FIELD_ELEMENT) as nat,
                |j: int| held[element_encoding(commitment, (j / 32) as u64)][j % 32],
            ),
        )
    } else {
        None
    }
}

/// Appends the eight bytes of `n`, the highest first.
fn push_be_u64(out: &mut Vec<u8>, n: u64)
    ensures
        final(out)@ == old(out)@ + be_bytes_u64(n),
{
    let ghost before = out@;
    out.push((n / 0x100_0000_0000_0000) as u8);
    out.push(((n / 0x1_0000_0000_0000) % 0x100) as u8);
    out.push(((n / 0x100_0000_0000) % 0x100) as u8);
    out.push(((n / 0x1_0000_0000) % 0x100) as u8);
    out.push(((n / 0x100_0000) % 0x100) as u8);
    out.push(((n / 0x1_0000) % 0x100) as u8);
    out.push(((n / 0x100) % 0x100) as u8);
    out.push((n % 0x100) as u8);
    assert(out@ =~= before + be_bytes_u64(n));
}

/// The key of the field element with the index `index` of the blob with the
/// commitment `commitment`.
fn element_key(commitment: &Vec<u8>, index: u64) -> (key: PreimageKey)
    ensures
        key.wf(),
        key.encoding() == element_encoding(commitment@, index),
        key.spec_key_type() == PreimageKeyType::Blob,
{
    let mut locator: Vec<u8> = Vec::new();
    locator.extend_from_slice(commitment.as_slice());
    assert(locator@ =~= commitment@);
    let mut i: usize = 0;
    while i < 24
        invariant
            i <= 24,
            locator@ == commitment@ + Seq::new(i as nat, |k: int| 0u8),
        decreases 24 - i,
    {
        locator.push(0u8);
        assert(locator@ =~= commitment@ + Seq::new((i + 1) as nat, |k: int| 0u8));
        i = i + 1;
    }
    push_be_u64(&mut locator, index);
    let digest = keccak256(locator.as_slice());
    let key = PreimageKey::new(digest.0, PreimageKeyType::Blob);
    assert(key.encoding() =~= element_encoding(commitment@, index));
    key
}

/// The blob with the hash of `blob_hash` in the block `block_ref`: its
/// commitment is read under the key of the hash, and its field elements
/// under the keys of the commitment. The blob is announced to the host if the
/// cache does not hold its commitment.
pub fn get_blob<R: PreimageOracleClient, H: HintWriterClient>(
    oracle: &mut CachingOracle<R>,
    hinter: &mut H,
    block_ref: &BlockInfo,
    blob_hash: &IndexedBlobHash,
) -> (r: Result<Blob, BlobProviderError>)
    ensures
        extends(old(oracle).held(), final(oracle).held()),
        match r {
            Ok(blob) => blob_in(final(oracle).held(), blob_hash.hash@) == Some(blob@),
            Err(e) => e is Oracle && blob_in(old(oracle).held(), blob_hash.hash@) is None,
        },
        !old(oracle).held().contains_key(commitment_encoding(blob_hash.hash@)) ==> hinted::<H>(
            hint_text(
                HintType::L1Blob,
                blob_request(blob_hash.hash@, blob_hash.index, block_ref.timestamp),
            ),
        ),
{
    let hash = blob_hash.hash;
    let key = PreimageKey::new(hash.0, PreimageKeyType::Sha256);
    assert(key.encoding() =~= commitment_encoding(hash@));
    if !oracle.holds(&key) {
        let mut request: Vec<u8> = Vec::new();
        request.extend_from_slice(hash.0.as_slice());
        assert(request@ =~= hash@);
        push_be_u64(&mut request, blob_hash.index);
        push_be_u64(&mut request, block_ref.timestamp);
        assert(request@ =~= blob_request(hash@, blob_hash.index, block_ref.timestamp));
        let parts: [&[u8]; 1] = [request.as_slice()];
        let hint = HintType::L1Blob.encode_with(parts.as_slice());
        let _ = hinter.write(hint.as_str());
        proof {
            lemma_joined_one(
                parts@,
                blob_request(blob_hash.hash@, blob_hash.index, block_ref.timestamp),
            );
            assert(hinted::<H>(
                hint_text(
                    HintType::L1Blob,
                    blob_request(blob_hash.hash@, blob_hash.index, block_ref.timestamp),
                ),
            ));
        }
    }
    let commitment = match oracle.get_exact(key, BYTES_PER_COMMITMENT) {
        Ok(commitment) => commitment,
        Err(e) => {
            return Err(BlobProviderError::Oracle(e));
        },
    };
    let ghost start = old(oracle).held();
    let ghost with_commitment = oracle.held();
    proof {
        assert(extends(start, with_commitment));
        assert(holds_commitment(with_commitment, hash@));
        assert(with_commitment[commitment_encoding(hash@)] == commitment@);
        if blob_in(start, hash@) is Some {
            assert(start.contains_key(commitment_encoding(hash@)));
            assert(start[commitment_encoding(hash@)] == commitment@);
        }
    }
    let mut bytes: Vec<u8> = Vec::new();
    let mut index: u64 = 0;
    while index < FIELD_ELEMENTS_PER_BLOB
        invariant
            !old(oracle).held().contains_key(commitment_encoding(blob_hash.hash@)) ==> hinted::<H>(
                hint_text(
                    HintType::L1Blob,
                    blob_request(blob_hash.hash@, blob_hash.index, block_ref.timestamp),
                ),
            ),
            index <= FIELD_ELEMENTS_PER_BLOB,
            hash == blob_hash.hash,
            start == old(oracle).held(),
            extends(start, oracle.held()),
            extends(with_commitment, oracle.held()),
            holds_commitment(with_commitment, hash@),
            with_commitment[commitment_encoding(hash@)] == commitment@,
            blob_in(start, hash@) is Some ==> start[commitment_encoding(hash@)] == commitment@,
            bytes@.len() == index * 32,
            forall|k: u64| k < index ==> #[trigger] holds_element(oracle.held(), commitment@, k),
            forall|j: int|
                0 <= j < bytes@.len() ==> bytes@[j] == oracle.held()[element_encoding(
                    commitment@,
                    (j / 32) as u64,
                )][j % 32],
        decreases FIELD_ELEMENTS_PER_BLOB - index,
    {
        let ghost held = oracle.held();
        let ghost so_far = bytes@;
        let key = element_key(&commitment, index);
        let element = match oracle.get_exact(key, BYTES_PER_FIELD_ELEMENT) {
            Ok(element) => element,
            Err(e) => {
                proof {
                    if blob_in(start, hash@) is Some {
                        let place = element_encoding(commitment@, index);
                        assert(start[commitment_encoding(hash@)] == commitment@);
                        assert(holds_element(start, commitment@, index));
                        assert(start.contains_key(place));
                        assert(held.contains_key(place) && held[place] == start[place]);
                        assert(key.verifies(held[place]));
                    }
                }
                return Err(BlobProviderError::Oracle(e));
            },
        };
        bytes.extend_from_slice(element.as_slice());
        proof {
            let now = oracle.held();
            lemma_extends_transitive(start, held, now);
            lemma_extends_transitive(with_commitment, held, now);
            assert(holds_element(now, commitment@, index));
            assert(now[element_encoding(commitment@, index)] == element@);
            assert(bytes@ =~= so_far + element@);
            assert forall|k: u64| k < index + 1 implies #[trigger] holds_element(
                now,
                commitment@,
                k,
            ) by {
                if k < index {
                    assert(holds_element(held, commitment@, k));
                }
            }
            assert forall|j: int| 0 <= j < bytes@.len() implies bytes@[j] == now[element_encoding(
                commitment@,
                (j / 32) as u64,
            )][j % 32] by {
                if j < so_far.len() {
                    assert(holds_element(held, commitment@, (j / 32) as u64));
                } else {
                    assert(j / 32 == index);
                    assert(bytes@[j] == element@[j - so_far.len()]);
                }
            }
        }
        index = index + 1;
    }
    proof {
        let now = oracle.held();
        assert(holds_commitment(now, hash@));
        assert(now[commitment_encoding(hash@)] == commitment@);
        assert(blob_in(now, hash@) is Some);
        assert(bytes@ =~= blob_in(now, hash@).unwrap());
    }
    Ok(Blob { bytes })
}

/// A blob provider over the oracle.
#[derive(Debug)]
pub struct OracleBlobProvider<R, H> {
    oracle: CachingOracle<R>,
    hinter: H,
}

/// The bytes of each blob of `found`.
pub open spec fn blob_bytes(found: Seq<Blob>) -> Seq<Seq<u8>> {
    found.map_values(|blob: Blob| blob@)
}

impl<R: PreimageOracleClient, H: HintWriterClient> OracleBlobProvider<R, H> {
    /// What the oracle's cache holds.
    pub closed spec fn held(self) -> Map<Seq<u8>, Seq<u8>> {
        self.oracle.held()
    }

    /// A provider over `oracle`, which writes its hints to `hinter`.
    pub fn new(oracle: CachingOracle<R>, hinter: H) -> (provider: OracleBlobProvider<R, H>)
        ensures
            provider.held() == oracle.held(),
    {
        OracleBlobProvider { oracle, hinter }
    }
}

impl<R: PreimageOracleClient, H: HintWriterClient> BlobProvider for OracleBlobProvider<R, H> {
    type Error = BlobProviderError;

    /// The blobs with the hashes of `blob_hashes`, in their order. The first
    /// blob that the oracle does not hold ends the request.
    fn get_blobs(&mut self, block_ref: &BlockInfo, blob_hashes: &[IndexedBlobHash]) -> (r: Result<
        Vec<Blob>,
        BlobProviderError,
    >)
        ensures
            extends(old(self).held(), final(self).held()),
            match r {
                Ok(found) => found@.len() == blob_hashes@.len() && forall|i: int|
                    0 <= i < found@.len() ==> blob_in(
                        final(self).held(),
                        (#[trigger] blob_hashes@[i]).hash@,
                    ) == Some(found@[i]@),
                Err(e) => e is Oracle && exists|i: int|
                    0 <= i < blob_hashes@.len() && blob_in(
                        old(self).held(),
                        (#[trigger] blob_hashes@[i]).hash@,
                    ) is None,
            },
    {
        let mut found: Vec<Blob> = Vec::new();
        let mut i: usize = 0;
        while i < blob_hashes.len()
            invariant
                i <= blob_hashes@.len(),
                found@.len() == i,
                extends(old(self).held(), self.held()),
                forall|k: int|
                    0 <= k < i ==> blob_in(self.held(), (#[trigger] blob_hashes@[k]).hash@)
                        == Some(found@[k]@),
            decreases blob_hashes@.len() - i,
        {
            let ghost held = self.held();
            let ghost before = found@;
            match get_blob(&mut self.oracle, &mut self.hinter, block_ref, &blob_hashes[i]) {
                Ok(blob) => {
                    found.push(blob);
                    proof {
                        lemma_extends_transitive(old(self).held(), held, self.held());
                        assert forall|k: int| 0 <= k < i + 1 implies blob_in(
                            self.held(),
                            (#[trigger] blob_hashes@[k]).hash@,
                        ) == Some(found@[k]@) by {
                            if k < i {
                                lemma_blob_stable(held, self.held(), blob_hashes@[k].hash@);
                                assert(found@[k] == before[k]);
                            }
                        }
                    }
                },
                Err(e) => {
                    proof {
                        lemma_extends_transitive(old(self).held(), held, self.held());
                        let hash = blob_hashes@[i as int].hash@;
                        if blob_in(old(self).held(), hash) is Some {
                            lemma_blob_stable(old(self).held(), held, hash);
                        }
                    }
                    return Err(e);
                },
            }
            i = i + 1;
        }
        Ok(found)
    }
}

/// A blob that is whole in the smaller cache is the same in the larger one.
pub proof fn lemma_blob_stable(
    before: Map<Seq<u8>, Seq<u8>>,
    after: Map<Seq<u8>, Seq<u8>>,
    hash: Seq<u8>,
)
    requires
        extends(before, after),
        blob_in(before, hash) is Some,
    ensures
        blob_in(after, hash) == blob_in(before, hash),
{
    let commitment = before[commitment_encoding(hash)];
    assert(before.contains_key(commitment_encoding(hash)));
    assert(holds_commitment(after, hash));
    assert forall|index: u64| index < FIELD_ELEMENTS_PER_BLOB implies #[trigger] holds_element(
        after,
        after[commitment_encoding(hash)],
        index,
    ) by {
        assert(holds_element(before, commitment, index));
        assert(before.contains_key(element_encoding(commitment, index)));
    }
    assert(blob_in(after, hash).unwrap() =~= blob_in(before, hash).unwrap()) by {
        assert forall|j: int| 0 <= j < 131072 implies blob_in(after, hash).unwrap()[j] == blob_in(
            before,
            hash,
        ).unwrap()[j] by {
            let index = (j / 32) as u64;
            assert(holds_element(before, commitment, index));
            assert(before.contains_key(element_encoding(commitment, index)));
        }
    }
}

} // verus!
