//! Layer 1 chain data from the preimage oracle.
//!
//! A header is the preimage of its hash. A block is found by its number on
//! the chain that ends at the layer 1 head, by following parent hashes down
//! from the head.

use crate::digest::keccak256_digest;
use crate::header::header_fields;
use crate::header::is_chain;
use crate::header::linked;
use crate::header::Header;
use crate::hint::hint_text;
use crate::hint::lemma_joined_one;
use crate::hint::HintType;
use crate::key::keccak_encoding;
use crate::key::PreimageKey;
use crate::oracle::fetched_as;
use crate::oracle::value_view;
use crate::oracle::CachingOracle;
use crate::oracle::OracleError;
use crate::oracle::PreimageOracleClient;
use crate::header::HeaderFields;
use crate::primitives::decode_receipt;
use crate::primitives::receipt_of;
use crate::primitives::receipt_views;
use crate::primitives::tx_views;
use crate::primitives::BlockInfo;
use crate::primitives::Receipt;
use crate::primitives::ReceiptView;
use crate::primitives::TxEnvelope;
use crate::primitives::B256;
use crate::traits::ChainProvider;
use crate::trie::in_index_order;
use crate::trie::leaf_views;
use crate::trie::lemma_trie_leaves_stable;
use crate::trie::ordered_list;
use crate::trie::trie_leaves;
use crate::trie::TrieError;
use vstd::prelude::*;

verus! {

/// The side channel on which the client tells the host what it is about to
/// ask for.
pub trait HintWriterClient {
    /// Writes a hint.
    fn write(&mut self, hint: &str) -> Result<(), OracleError>;
}

/// Whether the hint with the text `text` can have been written to a hint
/// writer of the type `H`.
pub open spec fn hinted<H: HintWriterClient>(text: Seq<char>) -> bool {
    exists|writer: &mut H, hint: &str, ack: Result<(), OracleError>| #[trigger]
        call_ensures(H::write, (writer, hint), ack) && hint@ == text
}

/// A hint writer without a host: it drops every hint.
#[derive(Debug, Clone, Copy, PartialEq, Eq, Default)]
pub struct NoHints;

impl HintWriterClient for NoHints {
    fn write(&mut self, hint: &str) -> (r: Result<(), OracleError>)
        ensures
            r is Ok,
    {
        Ok(())
    }
}

/// Why the provider has no answer.
#[derive(Debug, Clone, Copy, PartialEq, Eq, Hash, Structural)]
pub enum ProviderError {
    /// The oracle has no value for a key.
    Oracle(OracleError),
    /// A preimage is not the encoding of a header.
    BadHeader,
    /// A preimage has another hash than the one that it was asked for by.
    HashMismatch,
    /// A header does not have the number after its parent's.
    BrokenChain,
    /// The block lies beyond the layer 1 head.
    NotFound,
    /// A trie of the block cannot be walked.
    Trie(TrieError),
    /// A leaf of the receipts trie is not the encoding of a receipt.
    BadReceipt,
}

/// Whether `held` holds, under the key of `hash`, the encoding of a header
/// with that hash.
pub open spec fn holds_header(held: Map<Seq<u8>, Seq<u8>>, hash: Seq<u8>) -> bool {
    &&& held.contains_key(keccak_encoding(hash))
    &&& keccak256_digest(held[keccak_encoding(hash)]) == hash
    &&& header_fields(held[keccak_encoding(hash)]) is Some
}

/// What the oracle gives for the preimage of `hash` where its cache `held`
/// holds one: the value, if the key binds it.
pub open spec fn kept_preimage(held: Map<Seq<u8>, Seq<u8>>, hash: Seq<u8>) -> Result<
    Seq<u8>,
    OracleError,
> {
    let value = held[keccak_encoding(hash)];
    if keccak256_digest(value).skip(1) == hash.skip(1) {
        Ok(value)
    } else {
        Err(OracleError::KeyMismatch)
    }
}

/// What becomes of what the oracle gave for the preimage of `hash`: the
/// bytes, if all 32 bytes of their digest are those of `hash`.
pub open spec fn preimage_outcome(hash: Seq<u8>, got: Result<Seq<u8>, OracleError>) -> Result<
    Seq<u8>,
    ProviderError,
> {
    match got {
        Err(e) => Err(ProviderError::Oracle(e)),
        Ok(bytes) => if keccak256_digest(bytes) == hash {
            Ok(bytes)
        } else {
            Err(ProviderError::HashMismatch)
        },
    }
}

/// What becomes of what the oracle gave for the header with the hash
/// `hash`: the encoding of the header, if the bytes have the digest `hash`
/// and encode a header.
pub open spec fn header_outcome(hash: Seq<u8>, got: Result<Seq<u8>, OracleError>) -> Result<
    Seq<u8>,
    ProviderError,
> {
    match preimage_outcome(hash, got) {
        Err(e) => Err(e),
        Ok(bytes) => if header_fields(bytes) is Some {
            Ok(bytes)
        } else {
            Err(ProviderError::BadHeader)
        },
    }
}

/// A header, or why there is none, with the header as its encoding.
pub open spec fn encoded_view(r: Result<Header, ProviderError>) -> Result<Seq<u8>, ProviderError> {
    match r {
        Ok(header) => Ok(header@),
        Err(e) => Err(e),
    }
}

/// Bytes, or why there are none, with the bytes as a sequence.
pub open spec fn bytes_view(r: Result<Vec<u8>, ProviderError>) -> Result<Seq<u8>, ProviderError> {
    match r {
        Ok(bytes) => Ok(bytes@),
        Err(e) => Err(e),
    }
}

/// The fields of the header with the hash `hash`, as far as `held` holds it.
pub open spec fn header_in(held: Map<Seq<u8>, Seq<u8>>, hash: Seq<u8>) -> Option<HeaderFields> {
    if holds_header(held, hash) {
        header_fields(held[keccak_encoding(hash)])
    } else {
        None
    }
}

/// What the receipts with the encodings `items` say; `None` where one of
/// them is not the encoding of a receipt.
pub open spec fn receipts_of(items: Seq<Seq<u8>>) -> Option<Seq<ReceiptView>> {
    if forall|i: int| 0 <= i < items.len() ==> receipt_of(#[trigger] items[i]) is Some {
        Some(items.map_values(|item: Seq<u8>| receipt_of(item).unwrap()))
    } else {
        None
    }
}

/// The items of the list whose trie has the root `root`, in the order of
/// their indices, as far as `held` holds the trie.
pub open spec fn list_in(held: Map<Seq<u8>, Seq<u8>>, root: Seq<u8>) -> Option<Seq<Seq<u8>>> {
    match trie_leaves(held, root) {
        Some(leaves) => Some(in_index_order(leaves)),
        None => None,
    }
}

/// What the receipts of the block with the hash `hash` say, in the order of
/// the block's transactions, as far as `held` holds the header and the trie
/// of the receipts.
pub open spec fn receipts_in(held: Map<Seq<u8>, Seq<u8>>, hash: Seq<u8>) -> Option<
    Seq<ReceiptView>,
> {
    match header_in(held, hash) {
        Some(fields) => match list_in(held, fields.receipts_root@) {
            Some(items) => receipts_of(items),
            None => None,
        },
        None => None,
    }
}

/// The transactions of the block with the hash `hash`, each in its
/// encoding, in their order, as far as `held` holds the header and the trie
/// of the transactions.
pub open spec fn transactions_in(held: Map<Seq<u8>, Seq<u8>>, hash: Seq<u8>) -> Option<
    Seq<Seq<u8>>,
> {
    match header_in(held, hash) {
        Some(fields) => list_in(held, fields.transactions_root@),
        None => None,
    }
}

/// The number of the header with the hash `hash`, as far as `held` holds it.
pub open spec fn header_number(held: Map<Seq<u8>, Seq<u8>>, hash: B256) -> nat {
    match header_in(held, hash@) {
        Some(fields) => fields.number as nat,
        None => 0,
    }
}

/// The block that the header with the hash `hash` and the fields `fields`
/// describes.
pub open spec fn block_of(hash: B256, fields: HeaderFields) -> BlockInfo {
    BlockInfo {
        hash,
        number: fields.number,
        parent_hash: fields.parent_hash,
        timestamp: fields.timestamp,
    }
}

/// What the search for the block with the number `number` gives on the chain
/// that ends at the block with the hash `hash`, as far as `held` decides it.
/// The headers are followed down by their parent hashes. The block at which
/// the search starts must not lie below `number`, and each header must have
/// the number after its parent's. `None` where `held` lacks a header on the
/// way: the outcome then lies with the reader.
pub open spec fn block_on_chain(held: Map<Seq<u8>, Seq<u8>>, hash: B256, number: u64) -> Option<
    Result<BlockInfo, ProviderError>,
>
    decreases header_number(held, hash),
{
    match header_in(held, hash@) {
        None => None,
        Some(fields) => if fields.number < number {
            Some(Err(ProviderError::NotFound))
        } else if fields.number == number {
            Some(Ok(block_of(hash, fields)))
        } else {
            match header_in(held, fields.parent_hash@) {
                None => None,
                Some(parent) => if parent.number + 1 != fields.number {
                    Some(Err(ProviderError::BrokenChain))
                } else {
                    block_on_chain(held, fields.parent_hash, number)
                },
            }
        },
    }
}

/// A header that the smaller cache holds is the same in the larger one.
pub proof fn lemma_header_in_stable(
    before: Map<Seq<u8>, Seq<u8>>,
    after: Map<Seq<u8>, Seq<u8>>,
    hash: Seq<u8>,
)
    requires
        extends(before, after),
        header_in(before, hash) is Some,
    ensures
        header_in(after, hash) == header_in(before, hash),
{
    assert(before.contains_key(keccak_encoding(hash)));
}

/// Whether `trail` is a trail of headers in `held` from a block up: each
/// entry is a hash with the fields of its header, and each next header names
/// the one before as its parent and has the next number.
pub open spec fn is_trail(held: Map<Seq<u8>, Seq<u8>>, trail: Seq<(B256, HeaderFields)>) -> bool {
    &&& forall|i: int|
        0 <= i < trail.len() ==> header_in(held, (#[trigger] trail[i]).0@) == Some(trail[i].1)
    &&& forall|i: int|
        0 <= i < trail.len() - 1 ==> (#[trigger] trail[i + 1]).1.parent_hash == trail[i].0
            && trail[i + 1].1.number == trail[i].1.number + 1
}

/// A trail that the smaller cache holds is one in the larger cache.
pub proof fn lemma_trail_stable(
    before: Map<Seq<u8>, Seq<u8>>,
    after: Map<Seq<u8>, Seq<u8>>,
    trail: Seq<(B256, HeaderFields)>,
)
    requires
        extends(before, after),
        is_trail(before, trail),
    ensures
        is_trail(after, trail),
{
    assert forall|i: int| 0 <= i < trail.len() implies header_in(after, (#[trigger] trail[i]).0@)
        == Some(trail[i].1) by {
        lemma_header_in_stable(before, after, trail[i].0@);
    }
}

/// From every block of a trail, the search for the number of the trail's
/// first block finds that block.
pub proof fn lemma_trail_found(
    held: Map<Seq<u8>, Seq<u8>>,
    trail: Seq<(B256, HeaderFields)>,
    at: int,
)
    requires
        is_trail(held, trail),
        0 <= at < trail.len(),
    ensures
        trail[at].1.number == trail[0].1.number + at,
        block_on_chain(held, trail[at].0, trail[0].1.number) == Some(
            Ok::<BlockInfo, ProviderError>(block_of(trail[0].0, trail[0].1)),
        ),
    decreases at,
{
    if at > 0 {
        lemma_trail_found(held, trail, at - 1);
        assert(trail[at - 1 + 1] == trail[at]);
        assert(header_in(held, trail[at].0@) == Some(trail[at].1));
        assert(header_in(held, trail[at - 1].0@) == Some(trail[at - 1].1));
    } else {
        assert(header_in(held, trail[0].0@) == Some(trail[0].1));
    }
}

/// A layer 1 chain provider over the oracle.
#[derive(Debug)]
pub struct OracleL1ChainProvider<R, H> {
    oracle: CachingOracle<R>,
    hinter: H,
    l1_head: B256,
}

impl<R: PreimageOracleClient, H: HintWriterClient> OracleL1ChainProvider<R, H> {
    /// What the oracle's cache holds.
    pub closed spec fn held(self) -> Map<Seq<u8>, Seq<u8>> {
        self.oracle.held()
    }

    /// The hash of the layer 1 head.
    pub closed spec fn head(self) -> B256 {
        self.l1_head
    }

    /// A provider of the chain that ends at the block with the hash
    /// `l1_head`, over `oracle`, which writes its hints to `hinter`.
    pub fn new(l1_head: B256, oracle: CachingOracle<R>, hinter: H) -> (provider:
        OracleL1ChainProvider<R, H>)
        ensures
            provider.head() == l1_head,
            provider.held() == oracle.held(),
    {
        OracleL1ChainProvider { oracle, hinter, l1_head }
    }

    /// The preimage of `hash`, which is announced to the host as a preimage
    /// of the kind `hint_type` if the cache does not hold it. The preimage is
    /// hashed again and held against all 32 bytes of `hash`.
    fn preimage(&mut self, hint_type: HintType, hash: &B256) -> (r: Result<Vec<u8>, ProviderError>)
        ensures
            final(self).head() == old(self).head(),
            r matches Err(e) ==> e is Oracle || e is HashMismatch,
            extends(old(self).held(), final(self).held()),
            r matches Ok(bytes) ==> keccak256_digest(bytes@) == hash@ && final(self).held().contains_key(keccak_encoding(hash@)) && final(self).held()[keccak_encoding(
                hash@,
            )] == bytes@,
            old(self).held().contains_key(keccak_encoding(hash@)) ==> final(self).held() == old(self).held() && (r is Ok <==> keccak256_digest(old(self).held()[keccak_encoding(hash@)])
                == hash@),
            old(self).held().contains_key(keccak_encoding(hash@)) ==> bytes_view(r)
                == preimage_outcome(hash@, kept_preimage(old(self).held(), hash@)),
            !old(self).held().contains_key(keccak_encoding(hash@)) ==> hinted::<H>(
                hint_text(hint_type, hash@),
            ),
            !old(self).held().contains_key(keccak_encoding(hash@)) ==> exists|
                got: Result<Seq<u8>, OracleError>,
            | #[trigger]
                fetched_as::<R>(keccak_encoding(hash@), got) && bytes_view(r) == preimage_outcome(
                    hash@,
                    got,
                ),
    {
        let key = PreimageKey::new_keccak256(hash.0);
        if !self.oracle.holds(&key) {
            let parts: [&[u8]; 1] = [hash.0.as_slice()];
            let hint = hint_type.encode_with(parts.as_slice());
            let _ = self.hinter.write(hint.as_str());
            proof {
                lemma_joined_one(parts@, hash@);
                assert(hinted::<H>(hint_text(hint_type, hash@)));
            }
        }
        let got = self.oracle.get(key);
        proof {
            if !old(self).held().contains_key(keccak_encoding(hash@)) {
                assert(fetched_as::<R>(keccak_encoding(hash@), value_view(got)));
            } else {
                assert(value_view(got) == kept_preimage(old(self).held(), hash@));
            }
        }
        let bytes = match got {
            Ok(bytes) => bytes,
            Err(e) => {
                proof {
                    if old(self).held().contains_key(keccak_encoding(hash@)) {
                        assert(!key.verifies(old(self).held()[keccak_encoding(hash@)]));
                    }
                }
                return Err(ProviderError::Oracle(e));
            },
        };
        let found = crate::digest::keccak256(bytes.as_slice());
        if !found.eq_word(hash) {
            return Err(ProviderError::HashMismatch);
        }
        Ok(bytes)
    }

    /// The header with the hash `hash`: the preimage of `hash`, decoded. The
    /// preimage is that of the cache, or else what the reader of the oracle
    /// delivers for it; `header_outcome` says what becomes of it.
    pub fn header(&mut self, hash: B256) -> (r: Result<Header, ProviderError>)
        ensures
            final(self).head() == old(self).head(),
            r matches Err(e) ==> e is Oracle || e is HashMismatch || e is BadHeader,
            extends(old(self).held(), final(self).held()),
            r matches Ok(header) ==> header.wf() && header.spec_hash() == hash@ && holds_header(
                final(self).held(),
                hash@,
            ) && header@ == final(self).held()[keccak_encoding(hash@)] && header_in(
                final(self).held(),
                hash@,
            ) == Some(header.fields()),
            old(self).held().contains_key(keccak_encoding(hash@)) ==> final(self).held() == old(self).held() && (r is Ok <==> holds_header(old(self).held(), hash@)),
            old(self).held().contains_key(keccak_encoding(hash@)) ==> encoded_view(r)
                == header_outcome(hash@, kept_preimage(old(self).held(), hash@)),
            !old(self).held().contains_key(keccak_encoding(hash@)) ==> hinted::<H>(
                hint_text(HintType::L1BlockHeader, hash@),
            ),
            !old(self).held().contains_key(keccak_encoding(hash@)) ==> exists|
                got: Result<Seq<u8>, OracleError>,
            | #[trigger]
                fetched_as::<R>(keccak_encoding(hash@), got) && encoded_view(r) == header_outcome(
                    hash@,
                    got,
                ),
    {
        let bytes = match self.preimage(HintType::L1BlockHeader, &hash) {
            Ok(bytes) => bytes,
            Err(e) => {
                return Err(e);
            },
        };
        match Header::decode(bytes) {
            Some(header) => Ok(header),
            None => Err(ProviderError::BadHeader),
        }
    }

    /// The items of the list whose trie has the root `root`, which are
    /// announced to the host as `hint_type` of the block with the hash `hash`
    /// if the cache does not hold the root of the trie.
    fn list(&mut self, hint_type: HintType, hash: &B256, root: &B256) -> (r: Result<
        Vec<Vec<u8>>,
        ProviderError,
    >)
        ensures
            final(self).head() == old(self).head(),
            extends(old(self).held(), final(self).held()),
            match r {
                Ok(items) => list_in(final(self).held(), root@) == Some(leaf_views(items@)),
                Err(_) => list_in(old(self).held(), root@) is None,
            },
            !old(self).held().contains_key(keccak_encoding(root@)) ==> hinted::<H>(
                hint_text(hint_type, hash@),
            ),
    {
        let key = PreimageKey::new_keccak256(root.0);
        if !self.oracle.holds(&key) {
            let parts: [&[u8]; 1] = [hash.0.as_slice()];
            let hint = hint_type.encode_with(parts.as_slice());
            let _ = self.hinter.write(hint.as_str());
            proof {
                lemma_joined_one(parts@, hash@);
                assert(hinted::<H>(hint_text(hint_type, hash@)));
            }
        }
        match ordered_list(&mut self.oracle, &root.0) {
            Ok(items) => Ok(items),
            Err(e) => Err(ProviderError::Trie(e)),
        }
    }

    /// The receipts of the block with the hash `hash`, in the order of the
    /// block's transactions: the leaves of the trie under the receipts root
    /// of the block's header, decoded.
    pub fn receipts(&mut self, hash: B256) -> (r: Result<Vec<Receipt>, ProviderError>)
        ensures
            final(self).head() == old(self).head(),
            extends(old(self).held(), final(self).held()),
            match r {
                Ok(receipts) => receipts_in(final(self).held(), hash@) == Some(
                    receipt_views(receipts@),
                ),
                Err(_) => receipts_in(old(self).held(), hash@) is None,
            },
            !old(self).held().contains_key(keccak_encoding(hash@)) ==> hinted::<H>(
                hint_text(HintType::L1BlockHeader, hash@),
            ),
            header_in(old(self).held(), hash@) matches Some(fields) && !old(
                self,
            ).held().contains_key(keccak_encoding(fields.receipts_root@)) ==> hinted::<H>(
                hint_text(HintType::L1Receipts, hash@),
            ),
    {
        let header = match self.header(hash) {
            Ok(header) => header,
            Err(e) => {
                return Err(e);
            },
        };
        let ghost with_header = self.held();
        let root = header.receipts_root();
        let items = match self.list(HintType::L1Receipts, &hash, &root) {
            Ok(items) => items,
            Err(e) => {
                return Err(e);
            },
        };
        proof {
            crate::trie::lemma_extends_transitive(old(self).held(), with_header, self.held());
            assert(header_in(self.held(), hash@) == Some(header.fields()));
            if receipts_in(old(self).held(), hash@) is Some {
                lemma_trie_leaves_stable(old(self).held(), self.held(), root@);
            }
        }
        let mut receipts: Vec<Receipt> = Vec::new();
        let mut i: usize = 0;
        while i < items.len()
            invariant
                self.head() == old(self).head(),
                extends(old(self).held(), self.held()),
                i <= items@.len(),
                receipts@.len() == i,
                forall|j: int|
                    0 <= j < i ==> receipt_of(#[trigger] leaf_views(items@)[j]) == Some(
                        receipts@[j]@,
                    ),
                receipts_in(old(self).held(), hash@) is Some ==> receipts_of(leaf_views(items@))
                    is Some,
                !old(self).held().contains_key(keccak_encoding(hash@)) ==> hinted::<H>(
                    hint_text(HintType::L1BlockHeader, hash@),
                ),
                header_in(old(self).held(), hash@) matches Some(fields) && !old(
                    self,
                ).held().contains_key(keccak_encoding(fields.receipts_root@)) ==> hinted::<H>(
                    hint_text(HintType::L1Receipts, hash@),
                ),
            decreases items@.len() - i,
        {
            assert(leaf_views(items@)[i as int] == items@[i as int]@);
            match decode_receipt(items[i].as_slice()) {
                Some(receipt) => {
                    receipts.push(receipt);
                },
                None => {
                    assert(receipt_of(leaf_views(items@)[i as int]) is None);
                    return Err(ProviderError::BadReceipt);
                },
            }
            i = i + 1;
        }
        proof {
            let views = leaf_views(items@);
            assert(receipts_of(views) is Some);
            assert(receipt_views(receipts@) =~= receipts_of(views).unwrap());
        }
        Ok(receipts)
    }

    /// The block with the hash `hash` and its transactions, in their order:
    /// the leaves of the trie under the transactions root of the block's
    /// header.
    pub fn block_and_transactions(&mut self, hash: B256) -> (r: Result<
        (BlockInfo, Vec<TxEnvelope>),
        ProviderError,
    >)
        ensures
            final(self).head() == old(self).head(),
            extends(old(self).held(), final(self).held()),
            match r {
                Ok(found) => header_in(final(self).held(), hash@) matches Some(fields) && found.0
                    == block_of(hash, fields) && transactions_in(final(self).held(), hash@)
                    == Some(tx_views(found.1@)),
                Err(_) => transactions_in(old(self).held(), hash@) is None,
            },
            !old(self).held().contains_key(keccak_encoding(hash@)) ==> hinted::<H>(
                hint_text(HintType::L1BlockHeader, hash@),
            ),
            header_in(old(self).held(), hash@) matches Some(fields) && !old(
                self,
            ).held().contains_key(keccak_encoding(fields.transactions_root@)) ==> hinted::<H>(
                hint_text(HintType::L1Transactions, hash@),
            ),
    {
        let header = match self.header(hash) {
            Ok(header) => header,
            Err(e) => {
                return Err(e);
            },
        };
        let ghost with_header = self.held();
        let root = header.transactions_root();
        let items = match self.list(HintType::L1Transactions, &hash, &root) {
            Ok(items) => items,
            Err(e) => {
                return Err(e);
            },
        };
        proof {
            crate::trie::lemma_extends_transitive(old(self).held(), with_header, self.held());
            assert(header_in(self.held(), hash@) == Some(header.fields()));
        }
        let ghost views = leaf_views(items@);
        let mut ordered: Vec<TxEnvelope> = Vec::new();
        for encoded in iter: items
            invariant
                views == leaf_views(iter.seq()),
                ordered@.len() == iter.index(),
                forall|j: int| 0 <= j < ordered@.len() ==> (#[trigger] ordered@[j])@ == views[j],
        {
            ordered.push(TxEnvelope { encoded });
        }
        assert(tx_views(ordered@) =~= views);
        Ok((header.block_info(hash), ordered))
    }

    /// The block with the number `number` on the chain that ends at the
    /// layer 1 head. The headers are followed down from the head by their
    /// parent hashes; each must have the number after its parent's. Where the
    /// cache holds the headers on the way, the outcome is that of
    /// `block_on_chain`, and the cache stays as it is.
    pub fn block_info(&mut self, number: u64) -> (r: Result<BlockInfo, ProviderError>)
        ensures
            final(self).head() == old(self).head(),
            extends(old(self).held(), final(self).held()),
            block_on_chain(old(self).held(), old(self).head(), number) matches Some(outcome) ==> r
                == outcome && final(self).held() == old(self).held(),
            r matches Ok(info) ==> block_on_chain(final(self).held(), old(self).head(), number)
                == Some(Ok::<BlockInfo, ProviderError>(info)),
            r matches Ok(info) ==> info.number == number && exists|steps: int|
                0 <= steps && #[trigger] linked(
                    info.hash@,
                    number,
                    old(self).head()@,
                    steps,
                ),
            r matches Err(ProviderError::NotFound) ==> header_in(
                final(self).held(),
                old(self).head()@,
            ) matches Some(fields) && number > fields.number,
    {
        let ghost start = old(self).held();
        let ghost head = old(self).head();
        let ghost decided = block_on_chain(start, head, number) is Some;
        let mut hash = self.l1_head;
        let mut header = match self.header(hash) {
            Ok(header) => header,
            Err(e) => {
                return Err(e);
            },
        };
        if number > header.number() {
            return Err(ProviderError::NotFound);
        }
        let ghost mut walked: Seq<Header> = seq![header];
        let ghost mut trail: Seq<(B256, HeaderFields)> = seq![(hash, header.fields())];
        while header.number() > number
            invariant
                self.head() == old(self).head(),
                start == old(self).held(),
                head == old(self).head(),
                decided == (block_on_chain(start, head, number) is Some),
                extends(start, self.held()),
                decided ==> self.held() == start && block_on_chain(start, head, number)
                    == block_on_chain(start, hash, number),
                walked.len() > 0,
                walked[0] == header,
                header.wf(),
                header.spec_hash() == hash@,
                header.fields().number >= number,
                forall|i: int| 0 <= i < walked.len() ==> (#[trigger] walked[i]).wf(),
                forall|i: int|
                    0 <= i < walked.len() - 1 ==> (#[trigger] walked[i + 1]).fields().parent_hash@
                        == walked[i].spec_hash(),
                walked.last().spec_hash() == old(self).head()@,
                trail.len() > 0,
                trail[0] == (hash, header.fields()),
                trail.last().0 == head,
                is_trail(self.held(), trail),
            decreases header.fields().number - number,
        {
            let ghost held = self.held();
            let ghost child = (hash, header.fields());
            let parent_hash = header.parent_hash();
            let parent = match self.header(parent_hash) {
                Ok(parent) => parent,
                Err(e) => {
                    return Err(e);
                },
            };
            if parent.number() == u64::MAX || parent.number() + 1 != header.number() {
                return Err(ProviderError::BrokenChain);
            }
            proof {
                let before = walked;
                walked = seq![parent] + before;
                assert forall|i: int| 0 <= i < walked.len() implies (#[trigger] walked[i]).wf() by {
                    if i > 0 {
                        assert(walked[i] == before[i - 1]);
                    }
                }
                assert forall|i: int| 0 <= i < walked.len() - 1 implies (#[trigger] walked[i
                    + 1]).fields().parent_hash@ == walked[i].spec_hash() by {
                    if i > 0 {
                        assert(walked[i + 1] == before[i - 1 + 1]);
                        assert(walked[i] == before[i - 1]);
                    } else {
                        assert(walked[1] == before[0]);
                    }
                }
                assert(walked.last() == before.last());

                crate::trie::lemma_extends_transitive(start, held, self.held());
                lemma_trail_stable(held, self.held(), trail);
                let shorter = trail;
                trail = seq![(parent_hash, parent.fields())] + shorter;
                assert(trail.last() == shorter.last());
                assert(is_trail(self.held(), trail)) by {
                    assert forall|i: int| 0 <= i < trail.len() implies header_in(
                        self.held(),
                        (#[trigger] trail[i]).0@,
                    ) == Some(trail[i].1) by {
                        if i > 0 {
                            assert(trail[i] == shorter[i - 1]);
                        }
                    }
                    assert forall|i: int| 0 <= i < trail.len() - 1 implies (#[trigger] trail[i
                        + 1]).1.parent_hash == trail[i].0 && trail[i + 1].1.number
                        == trail[i].1.number + 1 by {
                        if i > 0 {
                            assert(trail[i + 1] == shorter[i - 1 + 1]);
                            assert(trail[i] == shorter[i - 1]);
                        } else {
                            assert(trail[1] == shorter[0]);
                            assert(shorter[0] == child);
                        }
                    }
                }
            }
            hash = parent_hash;
            header = parent;
        }
        let info = header.block_info(hash);
        proof {
            let steps = walked.len() - 1;
            assert(is_chain(walked, info.hash@, number, old(self).head()@));
            assert(0 <= steps && linked(info.hash@, number, old(self).head()@, steps));
            lemma_trail_found(self.held(), trail, trail.len() - 1);
        }
        Ok(info)
    }
}

/// Every value of `before` is a value of `after`, under the same key.
pub open spec fn extends(before: Map<Seq<u8>, Seq<u8>>, after: Map<Seq<u8>, Seq<u8>>) -> bool {
    forall|key: Seq<u8>| #[trigger]
        before.contains_key(key) ==> after.contains_key(key) && after[key] == before[key]
}

impl<R: PreimageOracleClient, H: HintWriterClient> ChainProvider for OracleL1ChainProvider<R, H> {
    type Error = ProviderError;

    /// The header with the hash `hash`.
    fn header_by_hash(&mut self, hash: B256) -> (r: Result<Header, ProviderError>)
        ensures
            final(self).head() == old(self).head(),
            extends(old(self).held(), final(self).held()),
            match r {
                Ok(header) => header.wf() && header.spec_hash() == hash@ && header_in(
                    final(self).held(),
                    hash@,
                ) == Some(header.fields()),
                Err(_) => header_in(old(self).held(), hash@) is None,
            },
            old(self).held().contains_key(keccak_encoding(hash@)) ==> final(self).held() == old(
                self,
            ).held() && encoded_view(r) == header_outcome(
                hash@,
                kept_preimage(old(self).held(), hash@),
            ),
            !old(self).held().contains_key(keccak_encoding(hash@)) ==> hinted::<H>(
                hint_text(HintType::L1BlockHeader, hash@),
            ),
            !old(self).held().contains_key(keccak_encoding(hash@)) ==> exists|
                got: Result<Seq<u8>, OracleError>,
            | #[trigger]
                fetched_as::<R>(keccak_encoding(hash@), got) && encoded_view(r) == header_outcome(
                    hash@,
                    got,
                ),
    {
        self.header(hash)
    }

    /// The block with the number `number` on the chain that ends at the
    /// layer 1 head.
    fn block_info_by_number(&mut self, number: u64) -> (r: Result<BlockInfo, ProviderError>)
        ensures
            final(self).head() == old(self).head(),
            extends(old(self).held(), final(self).held()),
            block_on_chain(old(self).held(), old(self).head(), number) matches Some(outcome) ==> r
                == outcome && final(self).held() == old(self).held(),
            r matches Ok(info) ==> block_on_chain(final(self).held(), old(self).head(), number)
                == Some(Ok::<BlockInfo, ProviderError>(info)),
            r matches Ok(info) ==> info.number == number && exists|steps: int|
                0 <= steps && #[trigger] linked(
                    info.hash@,
                    number,
                    old(self).head()@,
                    steps,
                ),
    {
        self.block_info(number)
    }

    /// The receipts of the block with the hash `hash`.
    fn receipts_by_hash(&mut self, hash: B256) -> (r: Result<Vec<Receipt>, ProviderError>)
        ensures
            final(self).head() == old(self).head(),
            extends(old(self).held(), final(self).held()),
            match r {
                Ok(receipts) => receipts_in(final(self).held(), hash@) == Some(
                    receipt_views(receipts@),
                ),
                Err(_) => receipts_in(old(self).held(), hash@) is None,
            },
            !old(self).held().contains_key(keccak_encoding(hash@)) ==> hinted::<H>(
                hint_text(HintType::L1BlockHeader, hash@),
            ),
            header_in(old(self).held(), hash@) matches Some(fields) && !old(
                self,
            ).held().contains_key(keccak_encoding(fields.receipts_root@)) ==> hinted::<H>(
                hint_text(HintType::L1Receipts, hash@),
            ),
    {
        self.receipts(hash)
    }

    /// The block with the hash `hash`, and its transactions.
    fn block_info_and_transactions_by_hash(&mut self, hash: B256) -> (r: Result<
        (BlockInfo, Vec<TxEnvelope>),
        ProviderError,
    >)
        ensures
            final(self).head() == old(self).head(),
            extends(old(self).held(), final(self).held()),
            match r {
                Ok(found) => header_in(final(self).held(), hash@) matches Some(fields) && found.0
                    == block_of(hash, fields) && transactions_in(final(self).held(), hash@)
                    == Some(tx_views(found.1@)),
                Err(_) => transactions_in(old(self).held(), hash@) is None,
            },
            !old(self).held().contains_key(keccak_encoding(hash@)) ==> hinted::<H>(
                hint_text(HintType::L1BlockHeader, hash@),
            ),
            header_in(old(self).held(), hash@) matches Some(fields) && !old(
                self,
            ).held().contains_key(keccak_encoding(fields.transactions_root@)) ==> hinted::<H>(
                hint_text(HintType::L1Transactions, hash@),
            ),
    {
        self.block_and_transactions(hash)
    }
}

} // verus!
