//! The account-set scan request: which program's accounts to ask the data
//! source for, and the coarse byte-pattern pre-filter it applies. The filter
//! may produce false positives; the decode steps downstream are the actual
//! validity gate.

use vstd::prelude::*;
use crate::address::Address;
use crate::address::spec_token_program_id;
use crate::address::token_program_id;
use crate::mint::IS_INITIALIZED_OFFSET;

verus! {

/// A scan of the external data source: all accounts owned by
/// `owner_program` whose data holds `filter_bytes` at `filter_offset`, with
/// a stable ordering requested so that output is deterministic for testing.
pub struct ScanRequest {
    pub owner_program: Address,
    pub filter_offset: usize,
    pub filter_bytes: Vec<u8>,
    pub sort_results: bool,
}

/// Whether a record's data matches an offset + exact-byte pre-filter.
pub open spec fn spec_matches_byte_pattern(data: Seq<u8>, offset: int, pattern: Seq<u8>) -> bool {
    &&& offset + pattern.len() <= data.len()
    &&& data.subrange(offset, offset + pattern.len() as int) == pattern
}

pub fn matches_byte_pattern(data: &Vec<u8>, offset: usize, pattern: &Vec<u8>) -> (r: bool)
    ensures
        r == spec_matches_byte_pattern(data@, offset as int, pattern@),
{
    let n = data.len();
    let m = pattern.len();
    if offset > n || m > n - offset {
        return false;
    }
    let mut i: usize = 0;
    while i < m
        invariant
            i <= m,
            m == pattern@.len(),
            n == data@.len(),
            offset + m <= n,
            forall|j: int| 0 <= j < i ==> data@[offset + j] == pattern@[j],
        decreases m - i,
    {
        if data[offset + i] != pattern[i] {
            proof {
                assert(data@.subrange(offset as int, offset as int + pattern@.len() as int)[i as int]
                    != pattern@[i as int]);
            }
            return false;
        }
        i = i + 1;
    }
    proof {
        assert(data@.subrange(offset as int, offset as int + pattern@.len() as int) =~= pattern@);
    }
    true
}

/// The scan that finds candidate mint accounts: accounts owned by the token
/// program whose is-initialized flag byte reads 1. A coarse pre-filter run
/// by the data source, not a validity proof.
pub fn token_mint_scan_request() -> (r: ScanRequest)
    ensures
        r.owner_program@ == spec_token_program_id(),
        r.owner_program.wf(),
        r.filter_offset == IS_INITIALIZED_OFFSET,
        r.filter_bytes@ == seq![1u8],
        r.sort_results == true,
{
    let filter_bytes: Vec<u8> = vec![1u8];
    proof {
        assert(filter_bytes@ =~= seq![1u8]);
    }
    ScanRequest {
        owner_program: token_program_id(),
        filter_offset: IS_INITIALIZED_OFFSET,
        filter_bytes,
        sort_results: true,
    }
}

} // verus!
