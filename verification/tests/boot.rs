use kona_client::boot::{
    configure, read_config, read_number, read_word, BootFault, BootInfo, BootInvalid, L1_END_NUMBER_KEY,
    L1_HEAD_KEY, L2_CHAIN_ID_KEY, L2_CLAIM_BLOCK_NUMBER_KEY, L2_CLAIM_KEY, L2_OUTPUT_ROOT_KEY,
    L2_ROLLUP_CONFIG_KEY,
};
use kona_client::key::PreimageKey;
use kona_client::oracle::{CachingOracle, Offline, OracleError, PreimageOracleClient};
use kona_client::primitives::{RollupConfig, B256};

const CONFIG: &str = r#"{"l2_chain_id": 10, "block_time": 2, "seq_window_size": 3600,
    "channel_timeout": 300, "max_sequencer_drift": 600, "batch_inbox_address": "0xff"}"#;

fn slots() -> Vec<(PreimageKey, Vec<u8>)> {
    vec![
        (PreimageKey::new_local(L1_HEAD_KEY), vec![0x11; 32]),
        (PreimageKey::new_local(L2_OUTPUT_ROOT_KEY), vec![0x22; 32]),
        (PreimageKey::new_local(L2_CLAIM_KEY), vec![0x33; 32]),
        (PreimageKey::new_local(L2_CLAIM_BLOCK_NUMBER_KEY), 90u64.to_be_bytes().to_vec()),
        (PreimageKey::new_local(L2_CHAIN_ID_KEY), 10u64.to_be_bytes().to_vec()),
        (PreimageKey::new_local(L2_ROLLUP_CONFIG_KEY), CONFIG.as_bytes().to_vec()),
        (PreimageKey::new_local(L1_END_NUMBER_KEY), 105u64.to_be_bytes().to_vec()),
    ]
}

#[test]
fn boot_slot_numbers() {
    assert_eq!(L1_HEAD_KEY, 1);
    assert_eq!(L2_OUTPUT_ROOT_KEY, 2);
    assert_eq!(L2_CLAIM_KEY, 3);
    assert_eq!(L2_CLAIM_BLOCK_NUMBER_KEY, 4);
    assert_eq!(L2_CHAIN_ID_KEY, 5);
    assert_eq!(L2_ROLLUP_CONFIG_KEY, 6);
    assert_eq!(L1_END_NUMBER_KEY, 7);
}

#[test]
fn load_reads_all_slots() {
    let mut oracle = CachingOracle::new(Some(slots()), Offline);
    let boot = BootInfo::load(&mut oracle).unwrap();
    assert_eq!(
        boot,
        BootInfo {
            l1_head: B256([0x11; 32]),
            l2_output_root: B256([0x22; 32]),
            l2_claim: B256([0x33; 32]),
            l2_claim_block: 90,
            chain_id: 10,
            rollup_config: RollupConfig {
                l2_chain_id: 10,
                block_time: 2,
                seq_window_size: 3600,
                channel_timeout: 300,
                max_sequencer_drift: 600,
            },
            l1_end_number: 105,
        }
    );
}

#[test]
fn load_fails_on_each_absent_slot() {
    for missing in 0..7 {
        let mut entries = slots();
        entries.remove(missing);
        let mut oracle = CachingOracle::new(Some(entries), Offline);
        assert_eq!(
            BootInfo::load(&mut oracle),
            Err(BootInvalid {
                slot: missing as u64 + 1,
                fault: BootFault::Absent(OracleError::OracleIO)
            })
        );
    }
}

#[test]
fn load_fails_on_wrong_length() {
    for (slot, bad) in [(0usize, vec![0u8; 31]), (2, vec![0u8; 33]), (3, vec![0u8; 4]), (6, vec![])]
    {
        let mut entries = slots();
        entries[slot].1 = bad;
        let mut oracle = CachingOracle::new(Some(entries), Offline);
        assert_eq!(
            BootInfo::load(&mut oracle),
            Err(BootInvalid { slot: slot as u64 + 1, fault: BootFault::WrongLength })
        );
    }
}

#[test]
fn load_reports_the_first_fault() {
    let mut entries = slots();
    entries[1].1 = vec![0u8; 3];
    entries[4].1 = vec![0u8; 3];
    let mut oracle = CachingOracle::new(Some(entries), Offline);
    assert_eq!(
        BootInfo::load(&mut oracle),
        Err(BootInvalid { slot: 2, fault: BootFault::WrongLength })
    );
}

#[test]
fn load_fails_on_bad_config() {
    for bad in ["", "not json", "[]", r#"{"l2_chain_id": 10}"#, r#"{"l2_chain_id": "10", "block_time": 2, "seq_window_size": 1, "channel_timeout": 1, "max_sequencer_drift": 1}"#] {
        let mut entries = slots();
        entries[5].1 = bad.as_bytes().to_vec();
        let mut oracle = CachingOracle::new(Some(entries), Offline);
        assert_eq!(
            BootInfo::load(&mut oracle),
            Err(BootInvalid { slot: 6, fault: BootFault::Config })
        );
    }
}

#[test]
fn read_number_is_big_endian() {
    assert_eq!(read_number(&[0, 0, 0, 0, 0, 0, 1, 2]), Ok(258));
    assert_eq!(read_number(&[0x01, 0x02, 0x03, 0x04, 0x05, 0x06, 0x07, 0x08]), Ok(0x0102_0304_0506_0708));
    assert_eq!(read_number(&[0xff; 8]), Ok(u64::MAX));
    assert_eq!(read_number(&[0; 8]), Ok(0));
    assert_eq!(read_number(&[0; 7]), Err(BootFault::WrongLength));
    assert_eq!(read_number(&[0; 9]), Err(BootFault::WrongLength));
}

#[test]
fn read_word_takes_32_bytes() {
    let mut value = [0u8; 32];
    value[0] = 9;
    value[31] = 7;
    assert_eq!(read_word(&value), Ok(B256(value)));
    assert_eq!(read_word(&value[..31]), Err(BootFault::WrongLength));
    assert_eq!(read_word(&[]), Err(BootFault::WrongLength));
}

#[test]
fn read_config_picks_the_numbers() {
    assert_eq!(
        read_config(CONFIG.as_bytes()),
        Ok(RollupConfig {
            l2_chain_id: 10,
            block_time: 2,
            seq_window_size: 3600,
            channel_timeout: 300,
            max_sequencer_drift: 600,
        })
    );
    assert_eq!(read_config(b"{}"), Err(BootFault::Config));
}

#[test]
fn read_config_needs_each_of_the_five_numbers() {
    let names =
        ["l2_chain_id", "block_time", "seq_window_size", "channel_timeout", "max_sequencer_drift"];
    for missing in names {
        let members: Vec<String> = names
            .iter()
            .filter(|name| **name != missing)
            .map(|name| format!("\"{name}\": 5"))
            .collect();
        let text = format!("{{{}}}", members.join(", "));
        assert_eq!(read_config(text.as_bytes()), Err(BootFault::Config), "{missing}");
        let whole = format!("{{{}, \"{missing}\": 6}}", members.join(", "));
        assert!(read_config(whole.as_bytes()).is_ok(), "{missing}");
    }
}

#[test]
fn read_config_takes_unsigned_numbers_only() {
    let with = |value: &str| {
        format!(
            "{{\"l2_chain_id\": {value}, \"block_time\": 2, \"seq_window_size\": 3,
            \"channel_timeout\": 4, \"max_sequencer_drift\": 5, \"other\": [1, 2]}}"
        )
    };
    assert_eq!(
        read_config(with("18446744073709551615").as_bytes()),
        Ok(RollupConfig {
            l2_chain_id: u64::MAX,
            block_time: 2,
            seq_window_size: 3,
            channel_timeout: 4,
            max_sequencer_drift: 5,
        })
    );
    for value in ["-1", "1.5", "\"10\"", "null", "true", "[10]", "18446744073709551616"] {
        assert_eq!(read_config(with(value).as_bytes()), Err(BootFault::Config), "{value}");
    }
    assert_eq!(read_config(b""), Err(BootFault::Config));
    assert_eq!(read_config(b"[1, 2, 3, 4, 5]"), Err(BootFault::Config));
    assert_eq!(read_config(b"{\"l2_chain_id\": 10"), Err(BootFault::Config));
}

#[test]
fn configuration_takes_all_five_numbers() {
    assert_eq!(
        configure(Some(1), Some(2), Some(3), Some(4), Some(5)),
        Ok(RollupConfig {
            l2_chain_id: 1,
            block_time: 2,
            seq_window_size: 3,
            channel_timeout: 4,
            max_sequencer_drift: 5,
        })
    );
    assert_eq!(configure(None, Some(2), Some(3), Some(4), Some(5)), Err(BootFault::Config));
    assert_eq!(configure(Some(1), None, Some(3), Some(4), Some(5)), Err(BootFault::Config));
    assert_eq!(configure(Some(1), Some(2), None, Some(4), Some(5)), Err(BootFault::Config));
    assert_eq!(configure(Some(1), Some(2), Some(3), None, Some(5)), Err(BootFault::Config));
    assert_eq!(configure(Some(1), Some(2), Some(3), Some(4), None), Err(BootFault::Config));
    assert_eq!(configure(None, None, None, None, None), Err(BootFault::Config));
}

/// A reader that serves a fixed list.
struct Listed {
    entries: Vec<(PreimageKey, Vec<u8>)>,
}

impl PreimageOracleClient for Listed {
    fn get(&mut self, key: PreimageKey) -> Result<Vec<u8>, OracleError> {
        self.entries
            .iter()
            .find(|(k, _)| *k == key)
            .map(|(_, v)| v.clone())
            .ok_or(OracleError::OracleIO)
    }

    fn get_exact(&mut self, key: PreimageKey, size: usize) -> Result<Vec<u8>, OracleError> {
        let value = self.get(key)?;
        if value.len() == size {
            Ok(value)
        } else {
            Err(OracleError::WrongSize { expected: size, found: value.len() })
        }
    }
}

#[test]
fn load_stops_at_a_malformed_slot_before_an_absent_one() {
    // The first slot is held and empty, the second is absent.
    let mut entries = slots();
    entries[0].1 = Vec::new();
    entries.remove(1);
    let mut oracle = CachingOracle::new(Some(entries.clone()), Offline);
    assert_eq!(
        BootInfo::load(&mut oracle),
        Err(BootInvalid { slot: L1_HEAD_KEY, fault: BootFault::WrongLength })
    );
    // The reader is not asked for the absent slot behind it.
    let reader = Listed { entries: slots() };
    let mut oracle = CachingOracle::new(Some(entries), reader);
    assert_eq!(
        BootInfo::load(&mut oracle),
        Err(BootInvalid { slot: L1_HEAD_KEY, fault: BootFault::WrongLength })
    );
    assert!(!oracle.holds(&PreimageKey::new_local(L2_OUTPUT_ROOT_KEY)));
}

#[test]
fn load_stops_at_an_absent_slot_before_a_malformed_one() {
    let mut entries = slots();
    entries[3].1 = vec![1, 2, 3];
    entries.remove(1);
    let mut oracle = CachingOracle::new(Some(entries), Offline);
    assert_eq!(
        BootInfo::load(&mut oracle),
        Err(BootInvalid {
            slot: L2_OUTPUT_ROOT_KEY,
            fault: BootFault::Absent(OracleError::OracleIO)
        })
    );
}

#[test]
fn load_asks_the_reader_for_each_absent_slot_in_order() {
    // The cache lacks the slots 2 and 5; the reader has the slot 2 only.
    let mut held = slots();
    held.remove(4);
    held.remove(1);
    let reader = Listed { entries: vec![slots()[1].clone()] };
    let mut oracle = CachingOracle::new(Some(held.clone()), reader);
    assert_eq!(
        BootInfo::load(&mut oracle),
        Err(BootInvalid { slot: L2_CHAIN_ID_KEY, fault: BootFault::Absent(OracleError::OracleIO) })
    );
    // What the reader delivered is kept.
    assert!(oracle.holds(&PreimageKey::new_local(L2_OUTPUT_ROOT_KEY)));
    assert!(!oracle.holds(&PreimageKey::new_local(L2_CHAIN_ID_KEY)));

    // A reader that has both completes the load.
    let reader = Listed { entries: slots() };
    let mut oracle = CachingOracle::new(Some(held.clone()), reader);
    let boot = BootInfo::load(&mut oracle).unwrap();
    assert_eq!(boot.l2_output_root, B256([0x22; 32]));
    assert_eq!(boot.chain_id, 10);
    assert!(oracle.holds(&PreimageKey::new_local(L2_CHAIN_ID_KEY)));

    // A malformed value from the reader ends the load at its slot.
    let mut short = slots()[1].clone();
    short.1 = vec![0x22; 31];
    let reader = Listed { entries: vec![short] };
    let mut oracle = CachingOracle::new(Some(held), reader);
    assert_eq!(
        BootInfo::load(&mut oracle),
        Err(BootInvalid { slot: L2_OUTPUT_ROOT_KEY, fault: BootFault::WrongLength })
    );
}
