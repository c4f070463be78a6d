//! The preimage oracle as the client sees it: a cache in front of a reader,
//! which hands out no value that is not bound to its key.

use crate::key::PreimageKey;
use crate::store::PreimageMap;
use vstd::prelude::*;

verus! {

/// Why the oracle has no value to hand out.
#[derive(Debug, Clone, Copy, PartialEq, Eq, Hash, Structural)]
pub enum OracleError {
    /// The value is not bound to the key.
    KeyMismatch,
    /// The host did not deliver.
    OracleIO,
    /// The value has another size than was asked for.
    WrongSize { expected: usize, found: usize },
}

/// A source of preimages.
pub trait PreimageOracleClient {
    /// The value of `key`.
    fn get(&mut self, key: PreimageKey) -> Result<Vec<u8>, OracleError>;

    /// The value of `key`, which must be `size` bytes long.
    fn get_exact(&mut self, key: PreimageKey, size: usize) -> Result<Vec<u8>, OracleError>;
}

/// A reader without a host: every request fails. It stands behind a cache
/// that was given all it needs.
#[derive(Debug, Clone, Copy, PartialEq, Eq, Default)]
pub struct Offline;

impl PreimageOracleClient for Offline {
    fn get(&mut self, key: PreimageKey) -> (r: Result<Vec<u8>, OracleError>)
        ensures
            r == Err::<Vec<u8>, OracleError>(OracleError::OracleIO),
    {
        Err(OracleError::OracleIO)
    }

    fn get_exact(&mut self, key: PreimageKey, size: usize) -> (r: Result<Vec<u8>, OracleError>)
        ensures
            r == Err::<Vec<u8>, OracleError>(OracleError::OracleIO),
    {
        Err(OracleError::OracleIO)
    }
}

/// A cache of preimages in front of a reader.
#[derive(Debug)]
pub struct CachingOracle<R> {
    cache: PreimageMap,
    reader: R,
}

/// The map that the pairs of `entries` make: each later pair takes the place
/// of an earlier one with the same key.
pub open spec fn seeded(entries: Seq<(PreimageKey, Vec<u8>)>) -> Map<Seq<u8>, Seq<u8>>
    decreases entries.len(),
{
    if entries.len() == 0 {
        Map::empty()
    } else {
        seeded(entries.drop_last()).insert(entries.last().0.encoding(), entries.last().1@)
    }
}

/// An entry in front of others gives way to a later one with its key.
pub proof fn lemma_seeded_first(first: (PreimageKey, Vec<u8>), rest: Seq<(PreimageKey, Vec<u8>)>)
    ensures
        seeded(seq![first] + rest) == if seeded(rest).contains_key(first.0.encoding()) {
            seeded(rest)
        } else {
            seeded(rest).insert(first.0.encoding(), first.1@)
        },
    decreases rest.len(),
{
    let all = seq![first] + rest;
    if rest.len() == 0 {
        assert(all.drop_last() =~= Seq::<(PreimageKey, Vec<u8>)>::empty());
        assert(all.last() == first);
        assert(rest =~= Seq::<(PreimageKey, Vec<u8>)>::empty());
        assert(seeded(all.drop_last()) == Map::<Seq<u8>, Seq<u8>>::empty());
        assert(seeded(all) =~= Map::<Seq<u8>, Seq<u8>>::empty().insert(
            first.0.encoding(),
            first.1@,
        ));
    } else {
        let last = rest.last();
        assert(all.drop_last() =~= seq![first] + rest.drop_last());
        assert(all.last() == last);
        lemma_seeded_first(first, rest.drop_last());
        let before = seeded(rest.drop_last());
        if seeded(rest).contains_key(first.0.encoding()) {
            assert(seeded(all) =~= seeded(rest));
        } else {
            assert(seeded(all) =~= seeded(rest).insert(first.0.encoding(), first.1@));
        }
    }
}

/// What a cache holds that was made with `prebuilt`.
pub open spec fn prebuilt_cache(prebuilt: Option<Vec<(PreimageKey, Vec<u8>)>>) -> Map<
    Seq<u8>,
    Seq<u8>,
> {
    match prebuilt {
        Some(entries) => seeded(entries@),
        None => Map::empty(),
    }
}

/// What a request for `key` gives where the cache `held` holds a value for
/// it: the value, if it is bound to the key.
pub open spec fn served(held: Map<Seq<u8>, Seq<u8>>, key: PreimageKey) -> Result<
    Seq<u8>,
    OracleError,
> {
    if key.verifies(held[key.encoding()]) {
        Ok(held[key.encoding()])
    } else {
        Err(OracleError::KeyMismatch)
    }
}

/// A value, or why there is none, with the bytes as a sequence.
pub open spec fn value_view(r: Result<Vec<u8>, OracleError>) -> Result<Seq<u8>, OracleError> {
    match r {
        Ok(bytes) => Ok(bytes@),
        Err(e) => Err(e),
    }
}

/// `r` is a value of `size` bytes, if it is a value at all.
pub open spec fn sized(r: Result<Seq<u8>, OracleError>, size: usize) -> Result<
    Seq<u8>,
    OracleError,
> {
    match r {
        Ok(bytes) => if bytes.len() == size {
            Ok(bytes)
        } else {
            Err(OracleError::WrongSize { expected: size, found: bytes.len() as usize })
        },
        Err(e) => Err(e),
    }
}

/// What becomes of what the reader delivered for `key`: a value is handed on
/// if the key binds it, and an error as it is.
pub open spec fn admitted(key: PreimageKey, fetched: Result<Seq<u8>, OracleError>) -> Result<
    Seq<u8>,
    OracleError,
> {
    match fetched {
        Ok(value) => if key.verifies(value) {
            Ok(value)
        } else {
            Err(OracleError::KeyMismatch)
        },
        Err(e) => Err(e),
    }
}

/// Whether an oracle in front of a reader `R`, whose cache lacks the key with
/// the 32 bytes `encoding`, can come to `outcome` on a request for that key:
/// the reader delivered something for the key, and `outcome` is what becomes
/// of it.
pub open spec fn fetched_as<R: PreimageOracleClient>(
    encoding: Seq<u8>,
    outcome: Result<Seq<u8>, OracleError>,
) -> bool {
    exists|reader: &mut R, key: PreimageKey, fetched: Result<Vec<u8>, OracleError>| #[trigger]
        call_ensures(R::get, (reader, key), fetched) && key.encoding() == encoding && outcome
            == admitted(key, value_view(fetched))
}

/// What becomes of what the reader delivered for `key`.
pub fn check_fetched(key: &PreimageKey, fetched: Result<Vec<u8>, OracleError>) -> (r: Result<
    Vec<u8>,
    OracleError,
>)
    ensures
        value_view(r) == admitted(*key, value_view(fetched)),
        r matches Ok(value) ==> fetched == Ok::<Vec<u8>, OracleError>(value),
{
    match fetched {
        Ok(value) => {
            if key.verify(value.as_slice()) {
                Ok(value)
            } else {
                Err(OracleError::KeyMismatch)
            }
        },
        Err(e) => Err(e),
    }
}

impl<R: PreimageOracleClient> CachingOracle<R> {
    /// What the cache holds: values by the 32 bytes of their key.
    pub closed spec fn held(self) -> Map<Seq<u8>, Seq<u8>> {
        self.cache@
    }

    /// A cache in front of `reader`, which holds the pairs of `prebuilt`.
    pub fn new(prebuilt: Option<Vec<(PreimageKey, Vec<u8>)>>, reader: R) -> (oracle: CachingOracle<R>)
        ensures
            oracle.held() == prebuilt_cache(prebuilt),
    {
        let mut cache = PreimageMap::new();
        match prebuilt {
            Some(entries) => {
                let mut entries = entries;
                let ghost all = entries@;
                assert(all.skip(all.len() as int) =~= Seq::<(PreimageKey, Vec<u8>)>::empty());
                while entries.len() > 0
                    invariant
                        entries@ == all.take(entries@.len() as int),
                        entries@.len() <= all.len(),
                        cache@ == seeded(all.skip(entries@.len() as int)),
                    decreases entries@.len(),
                {
                    let ghost rest = all.skip(entries@.len() as int);
                    let entry = entries.pop().unwrap();
                    proof {
                        assert(entry == all[entries@.len() as int]);
                        assert(all.skip(entries@.len() as int) =~= seq![entry] + rest);
                        lemma_seeded_first(entry, rest);
                        assert(entries@ =~= all.take(entries@.len() as int));
                    }
                    let raw = entry.0.to_bytes();
                    if cache.get(&raw).is_none() {
                        cache.insert(raw, entry.1);
                    }
                }
                assert(all.skip(0) =~= all);
            },
            None => {},
        }
        CachingOracle { cache, reader }
    }

    /// Whether the cache holds a value for `key`.
    pub fn holds(&self, key: &PreimageKey) -> (yes: bool)
        ensures
            yes == self.held().contains_key(key.encoding()),
    {
        let raw = key.to_bytes();
        self.cache.get(&raw).is_some()
    }

    /// The value of `key`. A value that the cache holds is handed out if it
    /// is bound to the key. Otherwise the reader is asked, and what it
    /// delivers is kept and handed out if it is bound to the key. No value
    /// leaves the oracle that is not bound to its key.
    pub fn get(&mut self, key: PreimageKey) -> (r: Result<Vec<u8>, OracleError>)
        ensures
            r matches Ok(value) ==> key.verifies(value@) && final(self).held().contains_key(
                key.encoding(),
            ) && final(self).held()[key.encoding()] == value@,
            old(self).held().contains_key(key.encoding()) ==> value_view(r) == served(
                old(self).held(),
                key,
            ) && final(self).held() == old(self).held(),
            !old(self).held().contains_key(key.encoding()) ==> match r {
                Ok(value) => final(self).held() == old(self).held().insert(
                    key.encoding(),
                    value@,
                ),
                Err(_) => final(self).held() == old(self).held(),
            },
            !old(self).held().contains_key(key.encoding()) ==> exists|
                reader: &mut R,
                fetched: Result<Vec<u8>, OracleError>,
            | #[trigger]
                call_ensures(R::get, (reader, key), fetched) && value_view(r) == admitted(
                    key,
                    value_view(fetched),
                ),
            !old(self).held().contains_key(key.encoding()) ==> fetched_as::<R>(
                key.encoding(),
                value_view(r),
            ),
    {
        let raw = key.to_bytes();
        match self.cache.get(&raw) {
            Some(value) => {
                if key.verify(value.as_slice()) {
                    Ok(value.clone())
                } else {
                    Err(OracleError::KeyMismatch)
                }
            },
            None => {
                let fetched = self.reader.get(key);
                let ghost answer = fetched;
                match check_fetched(&key, fetched) {
                    Ok(value) => {
                        self.cache.insert(raw, value.clone());
                        assert(value_view(Ok::<Vec<u8>, OracleError>(value)) == admitted(
                            key,
                            value_view(answer),
                        ));
                        Ok(value)
                    },
                    Err(e) => Err(e),
                }
            },
        }
    }

    /// The value of `key`, which must be `size` bytes long.
    pub fn get_exact(&mut self, key: PreimageKey, size: usize) -> (r: Result<Vec<u8>, OracleError>)
        ensures
            r matches Ok(value) ==> key.verifies(value@) && value@.len() == size && final(self).held().contains_key(key.encoding()) && final(self).held()[key.encoding()] == value@,
            old(self).held().contains_key(key.encoding()) ==> value_view(r) == sized(
                served(old(self).held(), key),
                size,
            ) && final(self).held() == old(self).held(),
            !old(self).held().contains_key(key.encoding()) ==> (final(self).held() == old(self).held() || exists|value: Seq<u8>|
                key.verifies(value) && final(self).held() == old(self).held().insert(
                    key.encoding(),
                    value,
                )),
            !old(self).held().contains_key(key.encoding()) ==> exists|
                reader: &mut R,
                fetched: Result<Vec<u8>, OracleError>,
            | #[trigger]
                call_ensures(R::get, (reader, key), fetched) && value_view(r) == sized(
                    admitted(key, value_view(fetched)),
                    size,
                ),
    {
        match self.get(key) {
            Ok(value) => {
                if value.len() == size {
                    Ok(value)
                } else {
                    Err(OracleError::WrongSize { expected: size, found: value.len() })
                }
            },
            Err(e) => Err(e),
        }
    }
}

} // verus!
