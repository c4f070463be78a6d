//! The hash maps of the client, each behind the few operations that the
//! client needs. The maps are `HashMap`s of `hashbrown` with its default
//! hasher; keys are plain arrays and integers.

use crate::primitives::Blob;
use crate::primitives::SystemConfig;
use vstd::prelude::*;

verus! {

/// Preimages by the 32 bytes of their key.
#[verifier::external_body]
#[derive(Debug)]
pub struct PreimageMap {
    inner: hashbrown::HashMap<[u8; 32], Vec<u8>>,
}

/// What a preimage map holds: the value under each key.
pub uninterp spec fn preimages(map: PreimageMap) -> Map<Seq<u8>, Seq<u8>>;

impl View for PreimageMap {
    type V = Map<Seq<u8>, Seq<u8>>;

    open spec fn view(&self) -> Map<Seq<u8>, Seq<u8>> {
        preimages(*self)
    }
}

impl PreimageMap {
    /// `HashMap::new` of `hashbrown`: a map that holds nothing.
    #[verifier::external_body]
    pub(crate) fn new() -> (map: PreimageMap)
        ensures
            preimages(map) == (Map::<Seq<u8>, Seq<u8>>::empty()),
    {
        PreimageMap { inner: hashbrown::HashMap::new() }
    }

    /// `HashMap::insert` of `hashbrown`: afterwards the map holds `value`
    /// under `key`, in place of what it held there, and all else as before.
    #[verifier::external_body]
    pub(crate) fn insert(&mut self, key: [u8; 32], value: Vec<u8>)
        ensures
            preimages(*final(self)) == preimages(*old(self)).insert(key@, value@),
    {
        self.inner.insert(key, value);
    }

    /// `HashMap::get` of `hashbrown`: the value under `key`, if the map holds
    /// one.
    #[verifier::external_body]
    pub(crate) fn get(&self, key: &[u8; 32]) -> (value: Option<&Vec<u8>>)
        ensures
            match value {
                Some(bytes) => preimages(*self).contains_key(key@) && preimages(*self)[key@]
                    == bytes@,
                None => !preimages(*self).contains_key(key@),
            },
    {
        self.inner.get(key)
    }
}

/// Blobs by the 32 bytes of their hash.
#[verifier::external_body]
#[derive(Debug)]
pub struct BlobMap {
    inner: hashbrown::HashMap<[u8; 32], Blob>,
}

/// What a blob map holds: the bytes of the blob under each hash.
pub uninterp spec fn blobs(map: BlobMap) -> Map<Seq<u8>, Seq<u8>>;

impl View for BlobMap {
    type V = Map<Seq<u8>, Seq<u8>>;

    open spec fn view(&self) -> Map<Seq<u8>, Seq<u8>> {
        blobs(*self)
    }
}

impl BlobMap {
    /// `HashMap::new` of `hashbrown`: a map that holds nothing.
    #[verifier::external_body]
    pub(crate) fn new() -> (map: BlobMap)
        ensures
            blobs(map) == (Map::<Seq<u8>, Seq<u8>>::empty()),
    {
        BlobMap { inner: hashbrown::HashMap::new() }
    }

    /// `HashMap::insert` of `hashbrown`: afterwards the map holds `blob` under
    /// `hash`, in place of what it held there, and all else as before.
    #[verifier::external_body]
    pub(crate) fn insert(&mut self, hash: [u8; 32], blob: Blob)
        ensures
            blobs(*final(self)) == blobs(*old(self)).insert(hash@, blob@),
    {
        self.inner.insert(hash, blob);
    }

    /// `HashMap::get` of `hashbrown`: the blob under `hash`, if the map holds
    /// one.
    #[verifier::external_body]
    pub(crate) fn get(&self, hash: &[u8; 32]) -> (blob: Option<&Blob>)
        ensures
            match blob {
                Some(found) => blobs(*self).contains_key(hash@) && blobs(*self)[hash@] == found@,
                None => !blobs(*self).contains_key(hash@),
            },
    {
        self.inner.get(hash)
    }

    /// `HashMap::clear` of `hashbrown`: afterwards the map holds nothing.
    #[verifier::external_body]
    pub(crate) fn clear(&mut self)
        ensures
            blobs(*final(self)) == (Map::<Seq<u8>, Seq<u8>>::empty()),
    {
        self.inner.clear();
    }

    /// `HashMap::clone` of `hashbrown`: a map of its own that holds a copy
    /// of each blob under the same hash.
    #[verifier::external_body]
    pub(crate) fn duplicate(&self) -> (copy: BlobMap)
        ensures
            blobs(copy) == blobs(*self),
    {
        BlobMap { inner: self.inner.clone() }
    }
}

/// System configurations by the number of their layer 2 block.
#[verifier::external_body]
#[derive(Debug)]
pub struct SystemConfigMap {
    inner: hashbrown::HashMap<u64, SystemConfig>,
}

/// What a map of system configurations holds: the configuration under each
/// block number.
pub uninterp spec fn system_configs(map: SystemConfigMap) -> Map<u64, SystemConfig>;

impl View for SystemConfigMap {
    type V = Map<u64, SystemConfig>;

    open spec fn view(&self) -> Map<u64, SystemConfig> {
        system_configs(*self)
    }
}

impl SystemConfigMap {
    /// `HashMap::new` of `hashbrown`: a map that holds nothing.
    #[verifier::external_body]
    pub(crate) fn new() -> (map: SystemConfigMap)
        ensures
            system_configs(map) == (Map::<u64, SystemConfig>::empty()),
    {
        SystemConfigMap { inner: hashbrown::HashMap::new() }
    }

    /// `HashMap::insert` of `hashbrown`: afterwards the map holds `config`
    /// under `number`, in place of what it held there, and all else as before.
    #[verifier::external_body]
    pub(crate) fn insert(&mut self, number: u64, config: SystemConfig)
        ensures
            system_configs(*final(self)) == system_configs(*old(self)).insert(number, config),
    {
        self.inner.insert(number, config);
    }

    /// `HashMap::get` of `hashbrown`: the configuration under `number`, if the
    /// map holds one.
    #[verifier::external_body]
    pub(crate) fn get(&self, number: &u64) -> (config: Option<&SystemConfig>)
        ensures
            match config {
                Some(found) => system_configs(*self).contains_key(*number) && system_configs(
                    *self,
                )[*number] == *found,
                None => !system_configs(*self).contains_key(*number),
            },
    {
        self.inner.get(number)
    }
}

} // verus!
