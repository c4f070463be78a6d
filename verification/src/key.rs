//! Preimage keys: 32 bytes that name one value of the oracle.
//!
//! The first byte of a key is the tag of its type. The other 31 bytes are a
//! digest without its first byte, or a locator.

use crate::digest::keccak256;
use crate::digest::keccak256_digest;
use crate::digest::sha256;
use crate::digest::sha256_digest;
use crate::primitives::B256;
use vstd::prelude::*;

verus! {

/// How the value of a key is bound to the key.
#[derive(Debug, Clone, Copy, PartialEq, Eq, Hash, Structural)]
pub enum PreimageKeyType {
    /// A boot slot; the host vouches for the value.
    Local,
    /// The key holds the Keccak-256 digest of the value.
    Keccak256,
    /// A key of the host's own making.
    GlobalGeneric,
    /// The key holds the SHA-256 digest of the value.
    Sha256,
    /// The key names a commitment and a field index of a blob.
    Blob,
    /// The key names a precompile call.
    Precompile,
}

/// A first byte that is the tag of no key type.
#[derive(Debug, Clone, Copy, PartialEq, Eq, Structural)]
pub struct InvalidPreimageKeyType(pub u8);

impl PreimageKeyType {
    /// The tag of the type: the first byte of a key of this type.
    pub open spec fn spec_tag(self) -> u8 {
        match self {
            PreimageKeyType::Local => 1,
            PreimageKeyType::Keccak256 => 2,
            PreimageKeyType::GlobalGeneric => 3,
            PreimageKeyType::Sha256 => 4,
            PreimageKeyType::Blob => 5,
            PreimageKeyType::Precompile => 6,
        }
    }

    /// The type with the tag `tag`.
    pub open spec fn spec_from_tag(tag: u8) -> Option<PreimageKeyType> {
        if tag == 1 {
            Some(PreimageKeyType::Local)
        } else if tag == 2 {
            Some(PreimageKeyType::Keccak256)
        } else if tag == 3 {
            Some(PreimageKeyType::GlobalGeneric)
        } else if tag == 4 {
            Some(PreimageKeyType::Sha256)
        } else if tag == 5 {
            Some(PreimageKeyType::Blob)
        } else if tag == 6 {
            Some(PreimageKeyType::Precompile)
        } else {
            None
        }
    }

    /// The tag of the type.
    #[verifier::when_used_as_spec(spec_tag)]
    pub fn tag(self) -> (tag: u8)
        ensures
            tag == self.spec_tag(),
    {
        match self {
            PreimageKeyType::Local => 1,
            PreimageKeyType::Keccak256 => 2,
            PreimageKeyType::GlobalGeneric => 3,
            PreimageKeyType::Sha256 => 4,
            PreimageKeyType::Blob => 5,
            PreimageKeyType::Precompile => 6,
        }
    }

    /// The type with the tag `tag`; a byte that is no tag comes back as the
    /// error.
    pub fn from_tag(tag: u8) -> (r: Result<PreimageKeyType, InvalidPreimageKeyType>)
        ensures
            match r {
                Ok(key_type) => PreimageKeyType::spec_from_tag(tag) == Some(key_type),
                Err(e) => PreimageKeyType::spec_from_tag(tag) is None && e.0 == tag,
            },
    {
        if tag == 1 {
            Ok(PreimageKeyType::Local)
        } else if tag == 2 {
            Ok(PreimageKeyType::Keccak256)
        } else if tag == 3 {
            Ok(PreimageKeyType::GlobalGeneric)
        } else if tag == 4 {
            Ok(PreimageKeyType::Sha256)
        } else if tag == 5 {
            Ok(PreimageKeyType::Blob)
        } else if tag == 6 {
            Ok(PreimageKeyType::Precompile)
        } else {
            Err(InvalidPreimageKeyType(tag))
        }
    }
}

/// A preimage key. It holds its 32 bytes; the first is the tag of its type.
#[derive(Debug, Clone, Copy, PartialEq, Eq, Hash)]
pub struct PreimageKey {
    raw: [u8; 32],
}

/// The bytes of `slot` from the lowest to the highest.
pub open spec fn le_bytes(slot: u64) -> Seq<u8> {
    Seq::new(8, |i: int| ((slot as int / pow256(i)) % 256) as u8)
}

/// 256 to the power of `i`, for the eight bytes of a `u64`.
pub open spec fn pow256(i: int) -> int {
    if i <= 0 {
        1
    } else if i == 1 {
        0x100
    } else if i == 2 {
        0x1_0000
    } else if i == 3 {
        0x100_0000
    } else if i == 4 {
        0x1_0000_0000
    } else if i == 5 {
        0x100_0000_0000
    } else if i == 6 {
        0x1_0000_0000_0000
    } else {
        0x100_0000_0000_0000
    }
}

/// The locator of a boot slot: the slot's number from its lowest byte to its
/// highest, then 23 zero bytes.
pub open spec fn local_locator(slot: u64) -> Seq<u8> {
    Seq::new(31, |i: int| if i < 8 { le_bytes(slot)[i] } else { 0u8 })
}

/// The 32 bytes of the key of the boot slot `slot`.
pub open spec fn local_encoding(slot: u64) -> Seq<u8> {
    seq![PreimageKeyType::Local.spec_tag()] + local_locator(slot)
}

/// The 32 bytes of the key of the values with the Keccak-256 digest `digest`.
pub open spec fn keccak_encoding(digest: Seq<u8>) -> Seq<u8> {
    seq![PreimageKeyType::Keccak256.spec_tag()] + digest.skip(1)
}

/// Whether `value` is bound to a key of type `key_type` with the bytes `data`
/// behind its tag. A key that holds a digest binds the values with that
/// digest, but for the first byte; for the other types the host vouches.
pub open spec fn binds(key_type: PreimageKeyType, data: Seq<u8>, value: Seq<u8>) -> bool {
    match key_type {
        PreimageKeyType::Keccak256 => data == keccak256_digest(value).skip(1),
        PreimageKeyType::Sha256 => data == sha256_digest(value).skip(1),
        _ => true,
    }
}

impl PreimageKey {
    #[verifier::type_invariant]
    spec fn tagged(self) -> bool {
        PreimageKeyType::spec_from_tag(self.raw@[0]) is Some
    }

    /// The first byte of the key is the tag of a type. Every key that the
    /// functions of this type hand out is well-formed.
    pub closed spec fn wf(self) -> bool {
        self.tagged()
    }

    /// The 32 bytes of the key: the tag, then the data.
    pub closed spec fn encoding(self) -> Seq<u8> {
        self.raw@
    }

    /// The type of the key.
    pub open spec fn spec_key_type(&self) -> PreimageKeyType {
        PreimageKeyType::spec_from_tag(self.encoding()[0]).unwrap()
    }

    /// The 31 bytes behind the tag.
    pub open spec fn data(self) -> Seq<u8> {
        self.encoding().skip(1)
    }

    /// Whether `value` is bound to this key.
    pub open spec fn verifies(self, value: Seq<u8>) -> bool {
        binds(self.spec_key_type(), self.data(), value)
    }

    /// The key of type `key_type` with the last 31 bytes of `key`.
    pub fn new(key: [u8; 32], key_type: PreimageKeyType) -> (k: PreimageKey)
        ensures
            k.wf(),
            k.encoding() == seq![key_type.spec_tag()] + key@.skip(1),
            k.spec_key_type() == key_type,
            k.data() == key@.skip(1),
    {
        let mut raw = key;
        raw[0] = key_type.tag();
        assert(raw@ =~= seq![key_type.spec_tag()] + key@.skip(1));
        assert(raw@.skip(1) =~= key@.skip(1));
        PreimageKey { raw }
    }

    /// The key of the boot slot `slot`.
    pub fn new_local(slot: u64) -> (k: PreimageKey)
        ensures
            k.wf(),
            k.spec_key_type() == PreimageKeyType::Local,
            k.data() == local_locator(slot),
            k.encoding() == local_encoding(slot),
    {
        let mut raw = [0u8; 32];
        raw[0] = PreimageKeyType::Local.tag();
        raw[1] = (slot % 0x100) as u8;
        raw[2] = ((slot / 0x100) % 0x100) as u8;
        raw[3] = ((slot / 0x1_0000) % 0x100) as u8;
        raw[4] = ((slot / 0x100_0000) % 0x100) as u8;
        raw[5] = ((slot / 0x1_0000_0000) % 0x100) as u8;
        raw[6] = ((slot / 0x100_0000_0000) % 0x100) as u8;
        raw[7] = ((slot / 0x1_0000_0000_0000) % 0x100) as u8;
        raw[8] = ((slot / 0x100_0000_0000_0000) % 0x100) as u8;
        assert(raw@.skip(1) =~= local_locator(slot));
        assert(raw@ =~= local_encoding(slot));
        PreimageKey { raw }
    }

    /// The key of the values whose Keccak-256 digest is `digest`.
    pub fn new_keccak256(digest: [u8; 32]) -> (k: PreimageKey)
        ensures
            k.wf(),
            k.spec_key_type() == PreimageKeyType::Keccak256,
            k.data() == digest@.skip(1),
            k.encoding() == keccak_encoding(digest@),
    {
        PreimageKey::new(digest, PreimageKeyType::Keccak256)
    }

    /// The type of the key.
    #[verifier::when_used_as_spec(spec_key_type)]
    pub fn key_type(&self) -> (key_type: PreimageKeyType)
        ensures
            self.wf(),
            key_type == self.spec_key_type(),
    {
        proof {
            use_type_invariant(self);
        }
        match PreimageKeyType::from_tag(self.raw[0]) {
            Ok(key_type) => key_type,
            Err(_) => PreimageKeyType::Local,
        }
    }

    /// The 32 bytes of the key.
    pub fn to_bytes(&self) -> (bytes: [u8; 32])
        ensures
            self.wf(),
            bytes@ == self.encoding(),
    {
        proof {
            use_type_invariant(self);
        }
        self.raw
    }

    /// The key that `bytes` are the 32 bytes of; a first byte that is no tag
    /// comes back as the error.
    pub fn from_bytes(bytes: [u8; 32]) -> (r: Result<PreimageKey, InvalidPreimageKeyType>)
        ensures
            match r {
                Ok(k) => k.wf() && k.encoding() == bytes@,
                Err(e) => PreimageKeyType::spec_from_tag(bytes@[0]) is None && e.0 == bytes@[0],
            },
    {
        match PreimageKeyType::from_tag(bytes[0]) {
            Ok(_) => Ok(PreimageKey { raw: bytes }),
            Err(e) => Err(e),
        }
    }

    /// Whether `value` is bound to this key: for a key that holds a digest,
    /// whether the digest of `value` is the one in the key.
    pub fn verify(&self, value: &[u8]) -> (ok: bool)
        ensures
            ok == self.verifies(value@),
    {
        match self.key_type() {
            PreimageKeyType::Keccak256 => {
                let digest = keccak256(value);
                self.matches_digest(&digest)
            },
            PreimageKeyType::Sha256 => {
                let digest = sha256(value);
                self.matches_digest(&digest)
            },
            _ => true,
        }
    }

    /// Whether the key holds `digest` without its first byte.
    fn matches_digest(&self, digest: &B256) -> (same: bool)
        ensures
            same == (self.data() == digest@.skip(1)),
    {
        let mut i: usize = 1;
        while i < 32
            invariant
                1 <= i <= 32,
                forall|j: int| 1 <= j < i ==> self.raw@[j] == digest.0@[j],
            decreases 32 - i,
        {
            if self.raw[i] != digest.0[i] {
                assert(self.data()[i - 1] == self.raw@[i as int]);
                assert(digest@.skip(1)[i - 1] == digest.0@[i as int]);
                return false;
            }
            i = i + 1;
        }
        assert(self.data() =~= digest@.skip(1));
        true
    }
}

/// A type is the type of its own tag, and a tag of a type is that of no other.
pub proof fn lemma_tag_bijective(key_type: PreimageKeyType, tag: u8)
    ensures
        PreimageKeyType::spec_from_tag(key_type.spec_tag()) == Some(key_type),
        PreimageKeyType::spec_from_tag(tag) == Some(key_type) <==> tag == key_type.spec_tag(),
{
}

/// Two keys with the same 32 bytes are the same key.
pub proof fn lemma_encoding_injective(a: PreimageKey, b: PreimageKey)
    requires
        a.encoding() == b.encoding(),
    ensures
        a == b,
{
    assert(a.raw@ =~= b.raw@);
    assert(a.raw == b.raw);
}

/// The 32 bytes of a key start with the tag of its type, and every 32 bytes
/// that start with a tag are the bytes of a key.
pub proof fn lemma_encoding_covers(k: PreimageKey, bytes: [u8; 32])
    ensures
        k.wf() ==> k.encoding().len() == 32 && k.encoding()[0] == k.spec_key_type().spec_tag(),
        PreimageKeyType::spec_from_tag(bytes@[0]) is Some ==> exists|key: PreimageKey|
            key.wf() && #[trigger] key.encoding() == bytes@,
{
    if PreimageKeyType::spec_from_tag(bytes@[0]) is Some {
        let key = PreimageKey { raw: bytes };
        assert(key.wf() && key.encoding() == bytes@);
    }
}

} // verus!
