//! Mint layout decoding, TLV classification, chunking and reassembly.

use token_scan::account::RawAccountRecord;
use token_scan::address::Address;
use token_scan::batch::{assemble_chunk_results, chunk_items, MAX_ADDRESSES_PER_REQUEST};
use token_scan::errors::ScanError;
use token_scan::mint::{decode_mint, BASE_MINT_LEN, IS_INITIALIZED_OFFSET};
use token_scan::scan::{matches_byte_pattern, token_mint_scan_request};
use token_scan::tlv::{classify_extension_tags, encode_tlv_entries, parse_tlv_entries, TlvEntry};

fn addr(b: u8) -> Address {
    Address::new(vec![b; 32])
}

fn base_mint_data() -> Vec<u8> {
    // mint authority present (tag 1) with a recognizable key, supply 7,
    // 9 decimals, initialized, no freeze authority.
    let mut data = vec![0u8; BASE_MINT_LEN];
    data[0] = 1;
    for i in 4..36 {
        data[i] = 0xAB;
    }
    data[36] = 7;
    data[44] = 9;
    data[IS_INITIALIZED_OFFSET] = 1;
    data
}

#[test]
fn decode_mint_reads_fixed_fields() {
    let data = base_mint_data();
    let mint = decode_mint(&data).unwrap();
    assert_eq!(mint.supply, 7);
    assert_eq!(mint.decimals, 9);
    assert!(mint.is_initialized);
    assert_eq!(mint.mint_authority.unwrap().bytes, vec![0xAB; 32]);
    assert!(mint.freeze_authority.is_none());
    assert!(mint.extension_region.is_empty());
}

#[test]
fn decode_mint_large_supply() {
    let mut data = base_mint_data();
    // supply bytes are little-endian
    data[36] = 0x01;
    data[37] = 0x02;
    data[43] = 0x80;
    let mint = decode_mint(&data).unwrap();
    assert_eq!(mint.supply, 0x8000_0000_0000_0201u64);
}

#[test]
fn decode_mint_rejects_short_record() {
    let data = vec![1u8; BASE_MINT_LEN - 1];
    assert_eq!(decode_mint(&data).unwrap_err(), ScanError::MalformedRecord);
    assert_eq!(decode_mint(&Vec::new()).unwrap_err(), ScanError::MalformedRecord);
}

#[test]
fn decode_mint_rejects_bad_presence_tag() {
    let mut data = base_mint_data();
    data[0] = 2;
    assert_eq!(decode_mint(&data).unwrap_err(), ScanError::MalformedRecord);
    let mut data = base_mint_data();
    data[46] = 3;
    assert_eq!(decode_mint(&data).unwrap_err(), ScanError::MalformedRecord);
}

#[test]
fn decode_mint_keeps_extension_region() {
    let mut data = base_mint_data();
    data.extend_from_slice(&[3, 0, 1, 0, 0xCC]);
    let mint = decode_mint(&data).unwrap();
    assert_eq!(mint.extension_region, vec![3, 0, 1, 0, 0xCC]);
}

#[test]
fn tlv_round_trip_reproduces_tags() {
    let entries = vec![
        TlvEntry { tag: 3, length: 2, value: vec![9, 9] },
        TlvEntry { tag: 7, length: 0, value: Vec::new() },
        TlvEntry { tag: 0x1234, length: 1, value: vec![0xFF] },
    ];
    let encoded = encode_tlv_entries(&entries);
    let parsed = parse_tlv_entries(&encoded).unwrap();
    assert_eq!(parsed.len(), 3);
    assert_eq!(parsed[0].tag, 3);
    assert_eq!(parsed[0].value, vec![9, 9]);
    assert_eq!(parsed[1].tag, 7);
    assert_eq!(parsed[2].tag, 0x1234);
    assert_eq!(classify_extension_tags(&encoded).unwrap(), vec![3, 7, 0x1234]);
}

#[test]
fn classify_empty_region_is_empty() {
    assert_eq!(classify_extension_tags(&Vec::new()).unwrap(), Vec::<u16>::new());
}

#[test]
fn classify_rejects_truncated_value() {
    // declares five value bytes but carries two
    let region = vec![3, 0, 5, 0, 1, 2];
    assert_eq!(
        classify_extension_tags(&region).unwrap_err(),
        ScanError::TruncatedExtension
    );
}

#[test]
fn classify_rejects_short_header() {
    let region = vec![1, 0, 0];
    assert_eq!(
        classify_extension_tags(&region).unwrap_err(),
        ScanError::TruncatedExtension
    );
}

#[test]
fn chunking_boundary_is_exact() {
    // 100 addresses: one request; 101: two (100 + 1)
    let hundred: Vec<Address> = (0..100).map(|i| addr(i as u8)).collect();
    let chunks = chunk_items(hundred, MAX_ADDRESSES_PER_REQUEST);
    assert_eq!(chunks.len(), 1);
    assert_eq!(chunks[0].len(), 100);

    let one_o_one: Vec<Address> = (0..101).map(|i| addr(i as u8)).collect();
    let chunks = chunk_items(one_o_one, MAX_ADDRESSES_PER_REQUEST);
    assert_eq!(chunks.len(), 2);
    assert_eq!(chunks[0].len(), 100);
    assert_eq!(chunks[1].len(), 1);
    assert_eq!(chunks[1][0].bytes, vec![100u8; 32]);
}

#[test]
fn chunking_preserves_order() {
    let items: Vec<u8> = (0..7).collect();
    let chunks = chunk_items(items, 3);
    assert_eq!(chunks, vec![vec![0, 1, 2], vec![3, 4, 5], vec![6]]);
}

fn record(tag: u8) -> RawAccountRecord {
    RawAccountRecord {
        address: addr(tag),
        owner: addr(0xEE),
        lamport_balance: 1,
        data: vec![tag],
    }
}

#[test]
fn assembly_keeps_slot_order_across_failures() {
    let chunks = vec![vec![addr(1), addr(2)], vec![addr(3), addr(4)], vec![addr(5)]];
    let outcomes = vec![
        Ok(vec![Some(record(1)), None]),
        Err(ScanError::BatchRequestFailed),
        Ok(vec![Some(record(5))]),
    ];
    let slots = assemble_chunk_results(&chunks, outcomes);
    assert_eq!(slots.len(), 5);
    assert_eq!(slots[0].as_ref().unwrap().data, vec![1]);
    assert!(slots[1].is_none());
    assert!(slots[2].is_none());
    assert!(slots[3].is_none());
    assert_eq!(slots[4].as_ref().unwrap().data, vec![5]);
}

#[test]
fn assembly_degrades_wrong_sized_chunk() {
    // a response with the wrong slot count cannot be trusted positionally
    let chunks = vec![vec![addr(1), addr(2)]];
    let outcomes = vec![Ok(vec![Some(record(1))])];
    let slots = assemble_chunk_results(&chunks, outcomes);
    assert_eq!(slots.len(), 2);
    assert!(slots[0].is_none());
    assert!(slots[1].is_none());
}

#[test]
fn scan_request_targets_initialized_mints() {
    let req = token_mint_scan_request();
    assert_eq!(req.filter_offset, IS_INITIALIZED_OFFSET);
    assert_eq!(req.filter_offset, 45);
    assert_eq!(req.filter_bytes, vec![1u8]);
    assert!(req.sort_results);
    let expected_owner =
        solana_sdk::pubkey::Pubkey::try_from("TokenzQdBNbLqP5VEhdkAS6EPFLC1PHnBqCXEpPxuEb")
            .unwrap();
    assert_eq!(req.owner_program.bytes, expected_owner.to_bytes().to_vec());
}

#[test]
fn byte_pattern_filter_matches_initialized_flag() {
    let req = token_mint_scan_request();
    let data = base_mint_data();
    assert!(matches_byte_pattern(&data, req.filter_offset, &req.filter_bytes));
    let mut uninit = base_mint_data();
    uninit[IS_INITIALIZED_OFFSET] = 0;
    assert!(!matches_byte_pattern(&uninit, req.filter_offset, &req.filter_bytes));
    // the filter is coarse: a record too short to be a mint never matches
    assert!(!matches_byte_pattern(&vec![1u8; 10], req.filter_offset, &req.filter_bytes));
}

#[test]
fn cli_carries_endpoint_and_command() {
    let cli = token_scan::cli::Cli::new(
        "http://localhost:8899".to_string(),
        token_scan::cli::Commands::GetTokensWithExtensions,
    );
    assert_eq!(cli.rpc_url, "http://localhost:8899");
    assert_eq!(cli.command, token_scan::cli::Commands::GetTokensWithExtensions);
    assert_ne!(cli.command, token_scan::cli::Commands::GetTokensWithMetadataAccount);
}
