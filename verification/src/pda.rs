//! Deterministic derived-address computation: hash the seeds plus a bump
//! byte against a target program id, decrementing the bump from 255 until the
//! candidate is off-curve. The hash-and-curve-check step is the outside
//! call; the bump search and the seed convention are verified here.

use vstd::prelude::*;
use crate::address::Address;
use crate::address::clone_bytes;
use crate::address::metadata_program_id;
use crate::address::spec_metadata_program_id;
use crate::address::spec_addr_views;
use crate::errors::ScanError;

verus! {

/// The candidate a single derivation attempt yields for these exact seeds:
/// `Some` of the 32-byte hash when it is off-curve, `None` when the hash
/// lands on the curve and therefore cannot serve as a derived address. A
/// function of the seeds and program id alone.
pub uninterp spec fn pda_candidate(seeds: Seq<Seq<u8>>, program_id: Seq<u8>) -> Option<Seq<u8>>;

/// The byte sequences a seed list holds.
pub open spec fn spec_seed_views(seeds: Seq<Vec<u8>>) -> Seq<Seq<u8>> {
    seeds.map_values(|v: Vec<u8>| v@)
}

/// Relies on solana_sdk::pubkey::Pubkey::create_program_address: it hashes
/// the seed slices, the program id and a fixed domain separator, returns the
/// hash as an address when it is off-curve, and errors when it is on-curve.
/// With at most 16 seeds of at most 32 bytes each, no other error is
/// reachable.
#[verifier::external_body]
fn try_create_program_address(seeds: &Vec<Vec<u8>>, program_id: &Address) -> (r: Option<Address>)
    requires
        seeds@.len() <= 16,
        forall|i: int| 0 <= i < seeds@.len() ==> (#[trigger] seeds@[i])@.len() <= 32,
        program_id.wf(),
    ensures
        match r {
            Some(a) => a.wf() && pda_candidate(spec_seed_views(seeds@), program_id@) == Some(a@),
            None => pda_candidate(spec_seed_views(seeds@), program_id@) is None,
        },
{
    let pid = solana_sdk::pubkey::Pubkey::try_from(program_id.bytes.as_slice()).unwrap();
    let seed_slices: Vec<&[u8]> = seeds.iter().map(|s| s.as_slice()).collect();
    match solana_sdk::pubkey::Pubkey::create_program_address(&seed_slices, &pid) {
        Ok(pk) => Some(Address { bytes: pk.to_bytes().to_vec() }),
        Err(_) => None,
    }
}

/// The first off-curve candidate found when the bump byte decrements from
/// `bump` towards zero; `None` when every bump in that range is on-curve.
pub open spec fn spec_find_derived(seeds: Seq<Seq<u8>>, program_id: Seq<u8>, bump: int) -> Option<
    Seq<u8>,
>
    decreases bump + 1 when bump >= -1
{
    if bump < 0 {
        None
    } else {
        match pda_candidate(seeds.push(seq![bump as u8]), program_id) {
            Some(a) => Some(a),
            None => spec_find_derived(seeds, program_id, bump - 1),
        }
    }
}

/// Copies a seed list and appends the single-byte bump seed.
fn seeds_with_bump(seeds: &Vec<Vec<u8>>, bump: u8) -> (r: Vec<Vec<u8>>)
    ensures
        spec_seed_views(r@) == spec_seed_views(seeds@).push(seq![bump]),
{
    let mut r: Vec<Vec<u8>> = Vec::new();
    let n = seeds.len();
    let mut i: usize = 0;
    while i < n
        invariant
            i <= n,
            n == seeds@.len(),
            r@.len() == i,
            spec_seed_views(r@) =~~= spec_seed_views(seeds@).take(i as int),
        decreases n - i,
    {
        let ghost old_r = r@;
        let c = clone_bytes(&seeds[i]);
        proof {
            assert(c@ == seeds@[i as int]@);
        }
        r.push(c);
        proof {
            assert(r@.len() == i + 1);
            assert forall|j: int| 0 <= j < i as int + 1 implies spec_seed_views(r@)[j]
                == spec_seed_views(seeds@).take(i as int + 1)[j] by {
                assert(spec_seed_views(r@)[j] == r@[j]@);
                assert(spec_seed_views(seeds@)[j] == seeds@[j]@);
                if j < i as int {
                    assert(r@[j] == old_r[j]);
                    assert(spec_seed_views(old_r)[j] == old_r[j]@);
                }
            }
            assert(spec_seed_views(r@) =~= spec_seed_views(seeds@).take(i as int + 1));
        }
        i = i + 1;
    }
    let bump_seed: Vec<u8> = vec![bump];
    proof {
        assert(bump_seed@ =~= seq![bump]);
        assert(spec_seed_views(seeds@).take(n as int) =~~= spec_seed_views(seeds@));
    }
    r.push(bump_seed);
    proof {
        assert(spec_seed_views(r@) =~~= spec_seed_views(seeds@).push(seq![bump]));
    }
    r
}

/// Searches bump bytes from 255 downwards for an off-curve derived address.
/// Returns the address together with the bump that produced it; fails with
/// `NoValidBumpFound` only when every bump in the search space yields an
/// on-curve hash.
pub fn find_derived_address(seeds: &Vec<Vec<u8>>, program_id: &Address) -> (r: Result<
    (Address, u8),
    ScanError,
>)
    requires
        seeds@.len() <= 15,
        forall|i: int| 0 <= i < seeds@.len() ==> (#[trigger] seeds@[i])@.len() <= 32,
        program_id.wf(),
    ensures
        match r {
            Ok((a, bump)) => {
                &&& a.wf()
                &&& spec_find_derived(spec_seed_views(seeds@), program_id@, 255) == Some(a@)
                &&& pda_candidate(spec_seed_views(seeds@).push(seq![bump]), program_id@) == Some(a@)
                &&& forall|t: int|
                    bump < t <= 255 ==> (#[trigger] pda_candidate(
                        spec_seed_views(seeds@).push(seq![t as u8]),
                        program_id@,
                    )) is None
            },
            Err(e) => {
                &&& e == ScanError::NoValidBumpFound
                &&& spec_find_derived(spec_seed_views(seeds@), program_id@, 255) is None
            },
        },
{
    let ghost sv = spec_seed_views(seeds@);
    let mut remaining: u16 = 256;
    while remaining > 0
        invariant
            remaining <= 256,
            sv == spec_seed_views(seeds@),
            seeds@.len() <= 15,
            forall|i: int| 0 <= i < seeds@.len() ==> (#[trigger] seeds@[i])@.len() <= 32,
            program_id.wf(),
            spec_find_derived(sv, program_id@, 255) == spec_find_derived(
                sv,
                program_id@,
                remaining as int - 1,
            ),
            forall|t: int|
                remaining as int - 1 < t <= 255 ==> (#[trigger] pda_candidate(
                    sv.push(seq![t as u8]),
                    program_id@,
                )) is None,
        decreases remaining,
    {
        remaining = remaining - 1;
        let bump = remaining as u8;
        let trial = seeds_with_bump(seeds, bump);
        proof {
            assert(spec_seed_views(trial@).len() == trial@.len());
            assert(trial@.len() == seeds@.len() + 1);
            assert(forall|i: int|
                0 <= i < trial@.len() ==> (#[trigger] trial@[i])@.len() <= 32) by {
                assert(forall|i: int|
                    0 <= i < trial@.len() ==> (#[trigger] trial@[i])@ == spec_seed_views(trial@)[i]);
            }
        }
        match try_create_program_address(&trial, program_id) {
            Some(a) => {
                return Ok((a, bump));
            },
            None => {},
        }
    }
    Err(ScanError::NoValidBumpFound)
}

/// The seed convention for metadata addresses: the fixed domain literal
/// `"metadata"`, the owning metadata program id, and the mint address.
pub open spec fn spec_metadata_seed_prefix() -> Seq<u8> {
    seq![109u8, 101, 116, 97, 100, 97, 116, 97]
}

pub open spec fn spec_metadata_seeds(mint: Seq<u8>) -> Seq<Seq<u8>> {
    seq![spec_metadata_seed_prefix(), spec_metadata_program_id(), mint]
}

/// What metadata-address derivation yields for a mint: the bump search run
/// on the metadata seed convention against the metadata program.
pub open spec fn spec_derive_metadata_pda(mint: Seq<u8>) -> Option<Seq<u8>> {
    spec_find_derived(spec_metadata_seeds(mint), spec_metadata_program_id(), 255)
}

/// Derives the metadata address associated with a mint: a pure function of
/// the mint address, with no network round trip.
pub fn derive_metadata_pda(mint: &Address) -> (r: Result<Address, ScanError>)
    requires
        mint.wf(),
    ensures
        match r {
            Ok(a) => a.wf() && spec_derive_metadata_pda(mint@) == Some(a@),
            Err(e) => e == ScanError::NoValidBumpFound && spec_derive_metadata_pda(mint@) is None,
        },
{
    let prefix: Vec<u8> = vec![109u8, 101, 116, 97, 100, 97, 116, 97];
    let program = metadata_program_id();
    let mut seeds: Vec<Vec<u8>> = Vec::new();
    seeds.push(prefix);
    seeds.push(clone_bytes(&program.bytes));
    seeds.push(clone_bytes(&mint.bytes));
    proof {
        assert(spec_seed_views(seeds@) =~~= spec_metadata_seeds(mint@));
        assert(spec_seed_views(seeds@)[0].len() == 8);
        assert(spec_seed_views(seeds@)[1].len() == 32);
        assert(spec_seed_views(seeds@)[2].len() == 32);
        assert(forall|i: int|
            0 <= i < seeds@.len() ==> (#[trigger] seeds@[i])@ == spec_seed_views(seeds@)[i]);
    }
    match find_derived_address(&seeds, &program) {
        Ok((a, _bump)) => Ok(a),
        Err(e) => Err(e),
    }
}

/// The derived metadata addresses of a mint list, in order, skipping any
/// mint whose bump search fails: that failure stays scoped to its own
/// address.
pub open spec fn spec_derive_all(mints: Seq<Seq<u8>>) -> Seq<Seq<u8>>
    decreases mints.len(),
{
    if mints.len() == 0 {
        Seq::empty()
    } else {
        (match spec_derive_metadata_pda(mints[0]) {
            Some(a) => seq![a],
            None => Seq::empty(),
        }) + spec_derive_all(mints.drop_first())
    }
}

/// Derives the metadata address of every mint in the list, in order. A mint
/// whose bump search finds no off-curve address is skipped: a hard failure
/// for that single address only, never for the whole list.
pub fn derive_metadata_pdas(mints: &Vec<Address>) -> (r: Vec<Address>)
    requires
        forall|i: int| 0 <= i < mints@.len() ==> (#[trigger] mints@[i]).wf(),
    ensures
        spec_addr_views(r@) == spec_derive_all(spec_addr_views(mints@)),
        forall|i: int| 0 <= i < r@.len() ==> (#[trigger] r@[i]).wf(),
{
    let ghost mv = spec_addr_views(mints@);
    let mut r: Vec<Address> = Vec::new();
    let mut j: usize = 0;
    proof {
        assert(mv.skip(0) =~= mv);
        assert(spec_addr_views(r@) =~= Seq::<Seq<u8>>::empty());
        assert(Seq::<Seq<u8>>::empty() + spec_derive_all(mv) =~= spec_derive_all(mv));
    }
    while j < mints.len()
        invariant
            j <= mints@.len(),
            mv == spec_addr_views(mints@),
            forall|i: int| 0 <= i < mints@.len() ==> (#[trigger] mints@[i]).wf(),
            forall|i: int| 0 <= i < r@.len() ==> (#[trigger] r@[i]).wf(),
            spec_derive_all(mv) == spec_addr_views(r@) + spec_derive_all(mv.skip(j as int)),
        decreases mints@.len() - j,
    {
        let ghost r0 = spec_addr_views(r@);
        proof {
            assert(mv.skip(j as int)[0] == mv[j as int]);
            assert(mv.skip(j as int).drop_first() =~= mv.skip(j as int + 1));
            assert(spec_derive_all(mv.skip(j as int)) == (match spec_derive_metadata_pda(
                mv[j as int],
            ) {
                Some(a) => seq![a],
                None => Seq::<Seq<u8>>::empty(),
            }) + spec_derive_all(mv.skip(j as int + 1)));
        }
        let ghost contribution = (match spec_derive_metadata_pda(mv[j as int]) {
            Some(a) => seq![a],
            None => Seq::<Seq<u8>>::empty(),
        });
        match derive_metadata_pda(&mints[j]) {
            Ok(a) => {
                r.push(a);
                proof {
                    assert(spec_addr_views(r@) =~= r0 + contribution);
                }
            },
            Err(_) => {
                proof {
                    assert(contribution =~= Seq::<Seq<u8>>::empty());
                    assert(spec_addr_views(r@) =~= r0 + contribution);
                }
            },
        }
        proof {
            assert(r0 + (contribution + spec_derive_all(mv.skip(j as int + 1))) =~= (r0
                + contribution) + spec_derive_all(mv.skip(j as int + 1)));
        }
        j = j + 1;
    }
    proof {
        assert(mv.skip(mints@.len() as int) =~= Seq::<Seq<u8>>::empty());
        assert(spec_addr_views(r@) + Seq::<Seq<u8>>::empty() =~= spec_addr_views(r@));
    }
    r
}

/// The determinism law of derivation: the derived address is a function of
/// the seeds and the program id alone, so any two results of the same search
/// are the same address.
pub proof fn lemma_derive_deterministic(
    seeds: Seq<Seq<u8>>,
    program_id: Seq<u8>,
    r1: Option<Seq<u8>>,
    r2: Option<Seq<u8>>,
)
    requires
        r1 == spec_find_derived(seeds, program_id, 255),
        r2 == spec_find_derived(seeds, program_id, 255),
    ensures
        r1 == r2,
{
}

} // verus!
