use kona_client::key::{PreimageKey, PreimageKeyType};
use kona_client::oracle::{
    check_fetched, CachingOracle, Offline, OracleError, PreimageOracleClient,
};

/// A reader that serves a fixed list and counts the requests.
struct ListReader {
    entries: Vec<(PreimageKey, Vec<u8>)>,
    requests: usize,
}

impl PreimageOracleClient for ListReader {
    fn get(&mut self, key: PreimageKey) -> Result<Vec<u8>, OracleError> {
        self.requests += 1;
        self.entries
            .iter()
            .find(|(k, _)| *k == key)
            .map(|(_, v)| v.clone())
            .ok_or(OracleError::OracleIO)
    }

    fn get_exact(&mut self, key: PreimageKey, size: usize) -> Result<Vec<u8>, OracleError> {
        let value = self.get(key)?;
        if value.len() == size {
            Ok(value)
        } else {
            Err(OracleError::WrongSize { expected: size, found: value.len() })
        }
    }
}

fn keccak_key(value: &[u8]) -> PreimageKey {
    PreimageKey::new_keccak256(alloy_primitives::keccak256(value).0)
}

#[test]
fn seeded_value_is_served() {
    let value = b"header bytes".to_vec();
    let key = keccak_key(&value);
    let mut oracle = CachingOracle::new(Some(vec![(key, value.clone())]), Offline);
    assert_eq!(oracle.get(key), Ok(value.clone()));
    assert_eq!(oracle.get(key), Ok(value));
}

#[test]
fn later_seed_replaces_earlier() {
    let key = PreimageKey::new_local(1);
    let mut oracle =
        CachingOracle::new(Some(vec![(key, vec![1]), (key, vec![2]), (key, vec![3])]), Offline);
    assert_eq!(oracle.get(key), Ok(vec![3]));
}

#[test]
fn seeded_hash_mismatch_is_fatal() {
    let key = keccak_key(b"the real preimage");
    let mut oracle = CachingOracle::new(Some(vec![(key, b"forged".to_vec())]), Offline);
    assert_eq!(oracle.get(key), Err(OracleError::KeyMismatch));
    assert_eq!(oracle.get_exact(key, 6), Err(OracleError::KeyMismatch));
}

#[test]
fn missing_value_without_host_is_io_error() {
    let mut oracle = CachingOracle::new(None, Offline);
    assert_eq!(oracle.get(keccak_key(b"x")), Err(OracleError::OracleIO));
    let mut oracle = CachingOracle::new(Some(Vec::new()), Offline);
    assert_eq!(oracle.get(PreimageKey::new_local(1)), Err(OracleError::OracleIO));
}

#[test]
fn fetched_value_is_verified_and_cached() {
    let value = b"fetched".to_vec();
    let key = keccak_key(&value);
    let reader = ListReader { entries: vec![(key, value.clone())], requests: 0 };
    let mut oracle = CachingOracle::new(None, reader);
    assert_eq!(oracle.get(key), Ok(value.clone()));
    assert_eq!(oracle.get(key), Ok(value.clone()));
    assert_eq!(oracle.get_exact(key, 7), Ok(value));
}

#[test]
fn fetched_hash_mismatch_is_fatal_and_not_cached() {
    let key = keccak_key(b"the real preimage");
    let reader = ListReader { entries: vec![(key, b"forged".to_vec())], requests: 0 };
    let mut oracle = CachingOracle::new(None, reader);
    assert_eq!(oracle.get(key), Err(OracleError::KeyMismatch));
    assert_eq!(oracle.get(key), Err(OracleError::KeyMismatch));
}

#[test]
fn get_exact_checks_the_size() {
    let key = PreimageKey::new_local(4);
    let mut oracle = CachingOracle::new(Some(vec![(key, vec![0; 8])]), Offline);
    assert_eq!(oracle.get_exact(key, 8), Ok(vec![0; 8]));
    assert_eq!(
        oracle.get_exact(key, 32),
        Err(OracleError::WrongSize { expected: 32, found: 8 })
    );
}

#[test]
fn sha256_entries_are_verified() {
    let value = b"sha".to_vec();
    let digest: [u8; 32] = <sha2::Sha256 as sha2::Digest>::digest(&value).into();
    let key = PreimageKey::new(digest, PreimageKeyType::Sha256);
    let mut oracle = CachingOracle::new(Some(vec![(key, value.clone())]), Offline);
    assert_eq!(oracle.get(key), Ok(value));
    let mut oracle = CachingOracle::new(Some(vec![(key, b"sham".to_vec())]), Offline);
    assert_eq!(oracle.get(key), Err(OracleError::KeyMismatch));
}

#[test]
fn offline_reader_always_fails() {
    let mut reader = Offline;
    assert_eq!(reader.get(PreimageKey::new_local(1)), Err(OracleError::OracleIO));
    assert_eq!(reader.get_exact(PreimageKey::new_local(1), 1), Err(OracleError::OracleIO));
}

#[test]
fn fetched_value_is_held_against_its_key() {
    let key = keccak_key(b"value");
    assert_eq!(check_fetched(&key, Ok(b"value".to_vec())), Ok(b"value".to_vec()));
    assert_eq!(check_fetched(&key, Ok(b"other".to_vec())), Err(OracleError::KeyMismatch));
    assert_eq!(check_fetched(&key, Ok(Vec::new())), Err(OracleError::KeyMismatch));
    assert_eq!(check_fetched(&key, Err(OracleError::OracleIO)), Err(OracleError::OracleIO));
    assert_eq!(
        check_fetched(&key, Err(OracleError::WrongSize { expected: 1, found: 2 })),
        Err(OracleError::WrongSize { expected: 1, found: 2 })
    );
    // A local value is bound to its key by the host alone.
    let local = PreimageKey::new_local(1);
    assert_eq!(check_fetched(&local, Ok(b"other".to_vec())), Ok(b"other".to_vec()));
}
