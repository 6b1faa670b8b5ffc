//! Metadata address derivation and result aggregation, run against the real
//! hashing and metadata-decoding crates.

use token_scan::account::RawAccountRecord;
use token_scan::address::{metadata_program_id, system_program_id, Address};
use token_scan::aggregate::{correlate_metadata, filter_mints_with_extensions};
use token_scan::mint::BASE_MINT_LEN;
use token_scan::pda::{derive_metadata_pda, derive_metadata_pdas, find_derived_address};

fn addr(b: u8) -> Address {
    Address::new(vec![b; 32])
}

/// A minimal metadata record in the expected byte layout, naming `mint`.
fn metadata_bytes(mint: &Address) -> Vec<u8> {
    let mut data = Vec::new();
    data.push(4u8); // record kind: metadata
    data.extend_from_slice(&[0u8; 32]); // update authority
    data.extend_from_slice(&mint.bytes); // mint
    data.extend_from_slice(&0u32.to_le_bytes()); // name: empty string
    data.extend_from_slice(&0u32.to_le_bytes()); // symbol: empty string
    data.extend_from_slice(&0u32.to_le_bytes()); // uri: empty string
    data.extend_from_slice(&0u16.to_le_bytes()); // seller fee basis points
    data.push(0); // creators: absent
    data.push(0); // primary sale happened: false
    data.push(1); // is mutable: true
    data.push(0); // edition nonce: absent
    data
}

fn alive_record(data: Vec<u8>) -> RawAccountRecord {
    RawAccountRecord {
        address: addr(0xDD),
        owner: metadata_program_id(),
        lamport_balance: 1_000_000,
        data,
    }
}

#[test]
fn derivation_is_deterministic() {
    let mint = addr(7);
    let first = derive_metadata_pda(&mint).unwrap();
    let second = derive_metadata_pda(&mint).unwrap();
    assert_eq!(first.bytes, second.bytes);
    assert_eq!(first.bytes.len(), 32);
    let other = derive_metadata_pda(&addr(8)).unwrap();
    assert_ne!(first.bytes, other.bytes);
}

#[test]
fn derivation_matches_reference_scheme() {
    let mint = addr(42);
    let ours = derive_metadata_pda(&mint).unwrap();
    let mint_key = solana_sdk::pubkey::Pubkey::new_from_array([42u8; 32]);
    let (expected, _bump) = mpl_token_metadata::accounts::Metadata::find_pda(&mint_key);
    assert_eq!(ours.bytes, expected.to_bytes().to_vec());
}

#[test]
fn bump_search_matches_reference_bump() {
    let seeds = vec![b"metadata".to_vec(), metadata_program_id().bytes.clone(), vec![42u8; 32]];
    let program = metadata_program_id();
    let (ours, our_bump) = find_derived_address(&seeds, &program).unwrap();
    let mint_key = solana_sdk::pubkey::Pubkey::new_from_array([42u8; 32]);
    let (expected, expected_bump) = mpl_token_metadata::accounts::Metadata::find_pda(&mint_key);
    assert_eq!(ours.bytes, expected.to_bytes().to_vec());
    assert_eq!(our_bump, expected_bump);
}

#[test]
fn derive_many_keeps_order() {
    let mints = vec![addr(1), addr(2), addr(3)];
    let pdas = derive_metadata_pdas(&mints);
    assert_eq!(pdas.len(), 3);
    for (mint, pda) in mints.iter().zip(pdas.iter()) {
        assert_eq!(derive_metadata_pda(mint).unwrap().bytes, pda.bytes);
    }
}

#[test]
fn correlation_pairs_decodable_metadata() {
    // one mint with a decodable metadata record, one whose derived account
    // does not exist: one pair out, no error
    let mint_a = addr(1);
    let mint_b = addr(2);
    let pdas = vec![derive_metadata_pda(&mint_a).unwrap(), derive_metadata_pda(&mint_b).unwrap()];
    let accounts = vec![Some(alive_record(metadata_bytes(&mint_a))), None];
    let pairs = correlate_metadata(&pdas, &accounts);
    assert_eq!(pairs.len(), 1);
    assert_eq!(pairs[0].mint.bytes, mint_a.bytes);
    assert_eq!(pairs[0].metadata_address.bytes, pdas[0].bytes);
}

#[test]
fn correlation_skips_undecodable_records() {
    let pdas = vec![addr(9)];
    let accounts = vec![Some(alive_record(vec![0xFF; 40]))];
    assert_eq!(correlate_metadata(&pdas, &accounts).len(), 0);
}

#[test]
fn dead_records_are_excluded() {
    let mint = addr(1);
    let pdas = vec![addr(9), addr(10), addr(11)];
    let zero_balance = RawAccountRecord {
        lamport_balance: 0,
        ..alive_record(metadata_bytes(&mint))
    };
    let no_data = RawAccountRecord { data: Vec::new(), ..alive_record(metadata_bytes(&mint)) };
    let reclaimed = RawAccountRecord {
        owner: system_program_id(),
        ..alive_record(metadata_bytes(&mint))
    };
    let accounts = vec![Some(zero_balance), Some(no_data), Some(reclaimed)];
    assert_eq!(correlate_metadata(&pdas, &accounts).len(), 0);
}

fn mint_record_with_extensions(tag: u8, region: &[u8]) -> RawAccountRecord {
    let mut data = vec![0u8; BASE_MINT_LEN];
    data[45] = 1;
    data.extend_from_slice(region);
    RawAccountRecord {
        address: addr(tag),
        owner: addr(0xEE),
        lamport_balance: 1,
        data,
    }
}

#[test]
fn extension_scenario_reports_tags_in_order() {
    // two entries with tags 3 and 7, in encounter order
    let with_exts = mint_record_with_extensions(1, &[3, 0, 1, 0, 0xAA, 7, 0, 0, 0]);
    let without_exts = mint_record_with_extensions(2, &[]);
    let malformed = RawAccountRecord {
        address: addr(3),
        owner: addr(0xEE),
        lamport_balance: 1,
        data: vec![1u8; 10],
    };
    let records = vec![without_exts, with_exts, malformed];
    let result = filter_mints_with_extensions(&records);
    assert_eq!(result.len(), 1);
    assert_eq!(result[0].mint.bytes, vec![1u8; 32]);
    assert_eq!(result[0].tags, vec![3, 7]);
}

#[test]
fn truncated_extension_region_keeps_record_out() {
    let truncated = mint_record_with_extensions(1, &[3, 0, 9, 0, 1]);
    assert_eq!(filter_mints_with_extensions(&vec![truncated]).len(), 0);
}
