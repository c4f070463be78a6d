//! Block headers.
//!
//! A header is held in its RLP encoding, with the fields that the client
//! reads beside it. Its hash is the Keccak-256 digest of the encoding.

use crate::digest::keccak256;
use crate::digest::keccak256_digest;
use crate::primitives::BlockInfo;
use crate::primitives::B256;
use vstd::prelude::*;

verus! {

/// The fields of a header that the client reads.
#[derive(Debug, Clone, Copy, PartialEq, Eq, Hash, Default)]
pub struct HeaderFields {
    /// The hash of the parent block.
    pub parent_hash: B256,
    /// The root of the state after the block.
    pub state_root: B256,
    /// The root of the trie of the block's transactions.
    pub transactions_root: B256,
    /// The root of the trie of the block's receipts.
    pub receipts_root: B256,
    /// The number of the block.
    pub number: u64,
    /// The time of the block.
    pub timestamp: u64,
}

/// The fields of the header that `rlp` encodes; `None` where `rlp` is not the
/// encoding of one header and nothing more.
pub uninterp spec fn header_fields(rlp: Seq<u8>) -> Option<HeaderFields>;

/// `decode_exact` of `alloy_rlp` for the `Header` of `alloy_consensus`: the
/// header that `rlp` encodes, handed out as the six fields that the client
/// reads. Bytes behind the header, or a malformed encoding, give `None`.
#[verifier::external_body]
fn decode_header_fields(rlp: &[u8]) -> (fields: Option<HeaderFields>)
    ensures
        fields == header_fields(rlp@),
{
    match alloy_rlp::decode_exact::<alloy_consensus::Header>(rlp) {
        Ok(header) => Some(
            HeaderFields {
                parent_hash: B256(header.parent_hash.0),
                state_root: B256(header.state_root.0),
                transactions_root: B256(header.transactions_root.0),
                receipts_root: B256(header.receipts_root.0),
                number: header.number,
                timestamp: header.timestamp,
            },
        ),
        Err(_) => None,
    }
}

/// A block header.
#[derive(Debug, PartialEq, Eq)]
pub struct Header {
    fields: HeaderFields,
    encoded: Vec<u8>,
}

impl Clone for Header {
    fn clone(&self) -> (copy: Header)
        ensures
            copy.wf(),
            copy@ == self@,
            copy.fields() == self.fields(),
    {
        self.duplicate()
    }
}

impl Clone for Sealed {
    fn clone(&self) -> (copy: Sealed)
        ensures
            copy.wf(),
            copy.header()@ == self.header()@,
            copy.seal() == self.seal(),
    {
        proof {
            use_type_invariant(self);
        }
        Sealed { header: self.header.duplicate(), hash: self.hash }
    }
}

impl View for Header {
    type V = Seq<u8>;

    /// The RLP encoding of the header.
    closed spec fn view(&self) -> Seq<u8> {
        self.encoded@
    }
}

impl Header {
    #[verifier::type_invariant]
    spec fn consistent(self) -> bool {
        header_fields(self.encoded@) == Some(self.fields)
    }

    /// The fields are those of the encoding. Every header that the functions
    /// of this type hand out is well-formed.
    pub closed spec fn wf(self) -> bool {
        self.consistent()
    }

    /// The fields of the header.
    pub closed spec fn fields(self) -> HeaderFields {
        self.fields
    }

    /// The hash of the header: the Keccak-256 digest of its encoding.
    pub open spec fn spec_hash(self) -> Seq<u8> {
        keccak256_digest(self@)
    }

    /// The header that `rlp` encodes; `None` where `rlp` is not the encoding
    /// of one header and nothing more.
    pub fn decode(rlp: Vec<u8>) -> (header: Option<Header>)
        ensures
            match header {
                Some(h) => h.wf() && h@ == rlp@ && header_fields(rlp@) == Some(h.fields()),
                None => header_fields(rlp@) is None,
            },
    {
        match decode_header_fields(rlp.as_slice()) {
            Some(fields) => Some(Header { fields, encoded: rlp }),
            None => None,
        }
    }

    /// The hash of the parent block.
    pub fn parent_hash(&self) -> (hash: B256)
        ensures
            self.wf(),
            hash == self.fields().parent_hash,
    {
        proof {
            use_type_invariant(self);
        }
        self.fields.parent_hash
    }

    /// The root of the state after the block.
    pub fn state_root(&self) -> (root: B256)
        ensures
            self.wf(),
            root == self.fields().state_root,
    {
        proof {
            use_type_invariant(self);
        }
        self.fields.state_root
    }

    /// The root of the trie of the block's transactions.
    pub fn transactions_root(&self) -> (root: B256)
        ensures
            self.wf(),
            root == self.fields().transactions_root,
    {
        proof {
            use_type_invariant(self);
        }
        self.fields.transactions_root
    }

    /// The root of the trie of the block's receipts.
    pub fn receipts_root(&self) -> (root: B256)
        ensures
            self.wf(),
            root == self.fields().receipts_root,
    {
        proof {
            use_type_invariant(self);
        }
        self.fields.receipts_root
    }

    /// The number of the block.
    pub fn number(&self) -> (number: u64)
        ensures
            self.wf(),
            number == self.fields().number,
    {
        proof {
            use_type_invariant(self);
        }
        self.fields.number
    }

    /// The time of the block.
    pub fn timestamp(&self) -> (timestamp: u64)
        ensures
            self.wf(),
            timestamp == self.fields().timestamp,
    {
        proof {
            use_type_invariant(self);
        }
        self.fields.timestamp
    }

    /// The RLP encoding of the header.
    pub fn encoded(&self) -> (rlp: &Vec<u8>)
        ensures
            self.wf(),
            rlp@ == self@,
    {
        proof {
            use_type_invariant(self);
        }
        &self.encoded
    }

    /// A header with the same encoding.
    pub fn duplicate(&self) -> (copy: Header)
        ensures
            self.wf(),
            copy.wf(),
            copy@ == self@,
            copy.fields() == self.fields(),
    {
        proof {
            use_type_invariant(self);
        }
        Header { fields: self.fields, encoded: self.encoded.clone() }
    }

    /// The hash of the header, computed from its encoding.
    pub fn hash_slow(&self) -> (hash: B256)
        ensures
            self.wf(),
            hash@ == self.spec_hash(),
    {
        proof {
            use_type_invariant(self);
        }
        keccak256(self.encoded.as_slice())
    }

    /// The header with its hash.
    pub fn seal_slow(self) -> (sealed: Sealed)
        ensures
            sealed.wf(),
            sealed.header() == self,
            sealed.seal()@ == self.spec_hash(),
    {
        let hash = self.hash_slow();
        Sealed { header: self, hash }
    }

    /// The block that the header with the hash `hash` describes.
    pub fn block_info(&self, hash: B256) -> (info: BlockInfo)
        ensures
            info == (BlockInfo {
                hash,
                number: self.fields().number,
                parent_hash: self.fields().parent_hash,
                timestamp: self.fields().timestamp,
            }),
    {
        BlockInfo {
            hash,
            number: self.fields.number,
            parent_hash: self.fields.parent_hash,
            timestamp: self.fields.timestamp,
        }
    }
}

/// A header paired with its hash.
#[derive(Debug, PartialEq, Eq)]
pub struct Sealed {
    header: Header,
    hash: B256,
}

impl Sealed {
    #[verifier::type_invariant]
    spec fn sealed(self) -> bool {
        self.hash@ == self.header.spec_hash()
    }

    /// The hash is the Keccak-256 digest of the header's encoding. Every
    /// sealed header that the functions of this type hand out is well-formed.
    pub closed spec fn wf(self) -> bool {
        self.sealed()
    }

    /// The header.
    pub closed spec fn header(self) -> Header {
        self.header
    }

    /// The hash that the header is paired with.
    pub closed spec fn seal(self) -> B256 {
        self.hash
    }

    /// The hash of a sealed header is the digest of its header's encoding.
    pub proof fn lemma_seal_is_digest(self)
        requires
            self.wf(),
        ensures
            self.seal()@ == keccak256_digest(self.header()@),
    {
    }

    /// The header with `hash`, where `hash` is the header's hash.
    pub fn new_checked(header: Header, hash: B256) -> (sealed: Option<Sealed>)
        ensures
            match sealed {
                Some(s) => s.wf() && s.header() == header && s.seal() == hash,
                None => hash@ != header.spec_hash(),
            },
    {
        let computed = header.hash_slow();
        if computed.eq_word(&hash) {
            Some(Sealed { header, hash })
        } else {
            None
        }
    }

    /// The hash of the header.
    pub fn hash(&self) -> (hash: B256)
        ensures
            self.wf(),
            hash == self.seal(),
            hash@ == self.header().spec_hash(),
    {
        proof {
            use_type_invariant(self);
        }
        self.hash
    }

    /// The header.
    pub fn inner(&self) -> (header: &Header)
        ensures
            *header == self.header(),
    {
        &self.header
    }

    /// The header, without its hash.
    pub fn unseal(self) -> (header: Header)
        ensures
            header == self.header(),
    {
        self.header
    }
}

/// `chain` is a chain of headers from the origin to the end: the first has
/// the hash `origin_hash` and the number `origin_num`, each next one names
/// the one before as its parent, and the last has the hash `end_hash`.
pub open spec fn is_chain(
    chain: Seq<Header>,
    origin_hash: Seq<u8>,
    origin_num: u64,
    end_hash: Seq<u8>,
) -> bool {
    &&& chain.len() > 0
    &&& forall|i: int| 0 <= i < chain.len() ==> (#[trigger] chain[i]).wf()
    &&& chain[0].spec_hash() == origin_hash
    &&& chain[0].fields().number == origin_num
    &&& forall|i: int|
        0 <= i < chain.len() - 1 ==> (#[trigger] chain[i + 1]).fields().parent_hash@
            == chain[i].spec_hash()
    &&& chain.last().spec_hash() == end_hash
}

/// The block with the hash `end_hash` stands `steps` parent links above the
/// block with the hash `origin_hash` and the number `origin_num`.
pub open spec fn linked(origin_hash: Seq<u8>, origin_num: u64, end_hash: Seq<u8>, steps: int) -> bool {
    exists|chain: Seq<Header>|
        chain.len() == steps + 1 && #[trigger] is_chain(chain, origin_hash, origin_num, end_hash)
}

} // verus!
