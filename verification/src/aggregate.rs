//! Result aggregation: pairing fetched metadata records with their derived
//! addresses (dropping dead or undecodable records), and the "mints that use
//! at least one extension" view.

use vstd::prelude::*;
use crate::account::RawAccountRecord;
use crate::account::RecordModel;
use crate::account::spec_is_dead;
use crate::account::spec_opt_records;
use crate::address::Address;
use crate::address::spec_addr_views;
use crate::mint::decode_mint;
use crate::mint::spec_decode_mint;
use crate::tlv::classify_extension_tags;
use crate::tlv::spec_parse_tlv;
use crate::tlv::spec_tags_of;

verus! {

/// The mint address stored in a metadata record, when the bytes decode as
/// the expected metadata layout; `None` when they do not. A function of the
/// bytes alone.
pub uninterp spec fn metadata_mint_of(data: Seq<u8>) -> Option<Seq<u8>>;

/// Relies on mpl_token_metadata::accounts::Metadata::safe_deserialize: it
/// either decodes the byte layout and exposes the 32-byte mint field, or
/// rejects the bytes; the outcome depends on the bytes alone.
#[verifier::external_body]
fn decode_metadata_mint(data: &Vec<u8>) -> (r: Option<Address>)
    ensures
        match r {
            Some(a) => a.wf() && metadata_mint_of(data@) == Some(a@),
            None => metadata_mint_of(data@) is None,
        },
{
    match mpl_token_metadata::accounts::Metadata::safe_deserialize(data.as_slice()) {
        Ok(m) => Some(Address { bytes: m.mint.to_bytes().to_vec() }),
        Err(_) => None,
    }
}

/// Mathematical image of one correlation result.
pub struct MatchModel {
    pub mint: Seq<u8>,
    pub metadata_address: Seq<u8>,
}

/// One mint paired with the derived metadata address whose record decoded.
pub struct MetadataMatch {
    pub mint: Address,
    pub metadata_address: Address,
}

impl View for MetadataMatch {
    type V = MatchModel;

    open spec fn view(&self) -> MatchModel {
        MatchModel { mint: self.mint@, metadata_address: self.metadata_address@ }
    }
}

impl MetadataMatch {
    pub open spec fn wf(&self) -> bool {
        self.mint.wf() && self.metadata_address.wf()
    }
}

pub open spec fn spec_match_views(s: Seq<MetadataMatch>) -> Seq<MatchModel> {
    s.map_values(|m: MetadataMatch| m@)
}

/// What one fetched slot contributes to the correlation: a single pair when
/// a record is present, alive, and decodes as metadata; nothing otherwise.
pub open spec fn spec_match_of(pda: Seq<u8>, acct: Option<RecordModel>) -> Seq<MatchModel> {
    match acct {
        Some(a) => if !spec_is_dead(a) {
            match metadata_mint_of(a.data) {
                Some(m) => seq![MatchModel { mint: m, metadata_address: pda }],
                None => Seq::empty(),
            }
        } else {
            Seq::empty()
        },
        None => Seq::empty(),
    }
}

/// The metadata correlation of a derived-address list with its fetched
/// slots, in order.
pub open spec fn spec_correlate(pdas: Seq<Seq<u8>>, accts: Seq<Option<RecordModel>>) -> Seq<
    MatchModel,
>
    decreases pdas.len(),
{
    if pdas.len() == 0 {
        Seq::empty()
    } else {
        spec_match_of(pdas[0], accts[0]) + spec_correlate(pdas.drop_first(), accts.drop_first())
    }
}

/// Pairs each derived metadata address with the mint named inside its
/// fetched record. Slots that are missing, dead, or fail to decode as the
/// metadata layout are dropped from the result, not reported as errors.
pub fn correlate_metadata(pdas: &Vec<Address>, accounts: &Vec<Option<RawAccountRecord>>) -> (r: Vec<
    MetadataMatch,
>)
    requires
        pdas@.len() == accounts@.len(),
        forall|i: int| 0 <= i < pdas@.len() ==> (#[trigger] pdas@[i]).wf(),
    ensures
        spec_match_views(r@) == spec_correlate(spec_addr_views(pdas@), spec_opt_records(accounts@)),
        forall|i: int| 0 <= i < r@.len() ==> (#[trigger] r@[i]).wf(),
{
    let ghost pv = spec_addr_views(pdas@);
    let ghost av = spec_opt_records(accounts@);
    let mut r: Vec<MetadataMatch> = Vec::new();
    let mut j: usize = 0;
    proof {
        assert(pv.skip(0) =~= pv);
        assert(av.skip(0) =~= av);
        assert(spec_match_views(r@) =~= Seq::<MatchModel>::empty());
        assert(Seq::<MatchModel>::empty() + spec_correlate(pv, av) =~= spec_correlate(pv, av));
    }
    while j < pdas.len()
        invariant
            j <= pdas@.len(),
            pdas@.len() == accounts@.len(),
            forall|i: int| 0 <= i < pdas@.len() ==> (#[trigger] pdas@[i]).wf(),
            pv == spec_addr_views(pdas@),
            av == spec_opt_records(accounts@),
            forall|i: int| 0 <= i < r@.len() ==> (#[trigger] r@[i]).wf(),
            spec_correlate(pv, av) == spec_match_views(r@) + spec_correlate(
                pv.skip(j as int),
                av.skip(j as int),
            ),
        decreases pdas@.len() - j,
    {
        let ghost r0 = spec_match_views(r@);
        proof {
            assert(pv.skip(j as int)[0] == pv[j as int]);
            assert(av.skip(j as int)[0] == av[j as int]);
            assert(pv.skip(j as int).drop_first() =~= pv.skip(j as int + 1));
            assert(av.skip(j as int).drop_first() =~= av.skip(j as int + 1));
            assert(spec_correlate(pv.skip(j as int), av.skip(j as int)) == spec_match_of(
                pv[j as int],
                av[j as int],
            ) + spec_correlate(pv.skip(j as int + 1), av.skip(j as int + 1)));
        }
        let ghost contribution = spec_match_of(pv[j as int], av[j as int]);
        match &accounts[j] {
            Some(rec) => {
                if !rec.is_dead() {
                    match decode_metadata_mint(&rec.data) {
                        Some(mint) => {
                            let pair = MetadataMatch { mint, metadata_address: pdas[j].clone() };
                            r.push(pair);
                            proof {
                                assert(spec_match_views(r@) =~= r0 + contribution);
                            }
                        },
                        None => {
                            proof {
                                assert(contribution =~= Seq::<MatchModel>::empty());
                                assert(spec_match_views(r@) =~= r0 + contribution);
                            }
                        },
                    }
                } else {
                    proof {
                        assert(contribution =~= Seq::<MatchModel>::empty());
                        assert(spec_match_views(r@) =~= r0 + contribution);
                    }
                }
            },
            None => {
                proof {
                    assert(contribution =~= Seq::<MatchModel>::empty());
                    assert(spec_match_views(r@) =~= r0 + contribution);
                }
            },
        }
        proof {
            assert(r0 + (contribution + spec_correlate(pv.skip(j as int + 1), av.skip(j as int + 1)))
                =~= (r0 + contribution) + spec_correlate(pv.skip(j as int + 1), av.skip(j as int + 1)));
        }
        j = j + 1;
    }
    proof {
        assert(pv.skip(pdas@.len() as int) =~= Seq::<Seq<u8>>::empty());
        assert(spec_correlate(pv.skip(pdas@.len() as int), av.skip(pdas@.len() as int)) == Seq::<
            MatchModel,
        >::empty());
        assert(spec_match_views(r@) + Seq::<MatchModel>::empty() =~= spec_match_views(r@));
    }
    r
}

/// The dead-record filtering law: a slot holding a dead record — in
/// particular one with a zero balance — contributes nothing to the
/// correlation, regardless of its data contents: the result is the same as
/// if the slot had been empty.
pub proof fn lemma_dead_record_excluded(
    pdas: Seq<Seq<u8>>,
    accts: Seq<Option<RecordModel>>,
    i: int,
)
    requires
        pdas.len() == accts.len(),
        0 <= i < accts.len(),
        accts[i] matches Some(a) && spec_is_dead(a),
    ensures
        spec_correlate(pdas, accts) == spec_correlate(pdas, accts.update(i, None)),
    decreases pdas.len(),
{
    let updated = accts.update(i, None);
    if i == 0 {
        assert(spec_match_of(pdas[0], accts[0]) =~= Seq::<MatchModel>::empty());
        assert(spec_match_of(pdas[0], updated[0]) =~= Seq::<MatchModel>::empty());
        assert(updated.drop_first() =~= accts.drop_first());
    } else {
        assert(updated[0] == accts[0]);
        assert(updated.drop_first() =~= accts.drop_first().update(i - 1, None));
        lemma_dead_record_excluded(pdas.drop_first(), accts.drop_first(), i - 1);
    }
}

/// Mathematical image of one extension-classification result.
pub struct MintExtModel {
    pub mint: Seq<u8>,
    pub tags: Seq<u16>,
}

/// A mint that uses at least one extension, with the ordered tag list found
/// in its TLV region.
pub struct MintExtensions {
    pub mint: Address,
    pub tags: Vec<u16>,
}

impl View for MintExtensions {
    type V = MintExtModel;

    open spec fn view(&self) -> MintExtModel {
        MintExtModel { mint: self.mint@, tags: self.tags@ }
    }
}

pub open spec fn spec_ext_views(s: Seq<MintExtensions>) -> Seq<MintExtModel> {
    s.map_values(|m: MintExtensions| m@)
}

pub open spec fn spec_record_views(s: Seq<RawAccountRecord>) -> Seq<RecordModel> {
    s.map_values(|r: RawAccountRecord| r@)
}

/// What one scanned record contributes to the extension view: its address
/// and tag list when it decodes as a mint whose extension region parses to
/// at least one entry; nothing otherwise — so false positives of the coarse
/// scan filter are rejected here, and extension-free mints are excluded.
pub open spec fn spec_ext_entry(r: RecordModel) -> Seq<MintExtModel> {
    match spec_decode_mint(r.data) {
        Ok(m) => match spec_parse_tlv(m.extension_region) {
            Ok(es) => if es.len() > 0 {
                seq![MintExtModel { mint: r.address, tags: spec_tags_of(es) }]
            } else {
                Seq::empty()
            },
            Err(_) => Seq::empty(),
        },
        Err(_) => Seq::empty(),
    }
}

/// The extension view of a scanned record list, in order.
pub open spec fn spec_filter_exts(records: Seq<RecordModel>) -> Seq<MintExtModel>
    decreases records.len(),
{
    if records.len() == 0 {
        Seq::empty()
    } else {
        spec_ext_entry(records[0]) + spec_filter_exts(records.drop_first())
    }
}

/// Keeps the scanned records that decode as mints carrying one or more TLV
/// extensions, each paired with its ordered extension tag list. Records that
/// fail mint decoding or whose extension region is malformed are skipped,
/// never fatal.
pub fn filter_mints_with_extensions(records: &Vec<RawAccountRecord>) -> (r: Vec<MintExtensions>)
    ensures
        spec_ext_views(r@) == spec_filter_exts(spec_record_views(records@)),
{
    let ghost rv = spec_record_views(records@);
    let mut r: Vec<MintExtensions> = Vec::new();
    let mut j: usize = 0;
    proof {
        assert(rv.skip(0) =~= rv);
        assert(spec_ext_views(r@) =~= Seq::<MintExtModel>::empty());
        assert(Seq::<MintExtModel>::empty() + spec_filter_exts(rv) =~= spec_filter_exts(rv));
    }
    while j < records.len()
        invariant
            j <= records@.len(),
            rv == spec_record_views(records@),
            spec_filter_exts(rv) == spec_ext_views(r@) + spec_filter_exts(rv.skip(j as int)),
        decreases records@.len() - j,
    {
        let ghost r0 = spec_ext_views(r@);
        proof {
            assert(rv.skip(j as int)[0] == rv[j as int]);
            assert(rv.skip(j as int).drop_first() =~= rv.skip(j as int + 1));
            assert(spec_filter_exts(rv.skip(j as int)) == spec_ext_entry(rv[j as int])
                + spec_filter_exts(rv.skip(j as int + 1)));
        }
        let ghost contribution = spec_ext_entry(rv[j as int]);
        let record = &records[j];
        match decode_mint(&record.data) {
            Ok(m) => {
                match classify_extension_tags(&m.extension_region) {
                    Ok(tags) => {
                        if tags.len() > 0 {
                            r.push(MintExtensions { mint: record.address.clone(), tags });
                            proof {
                                assert(spec_ext_views(r@) =~= r0 + contribution);
                            }
                        } else {
                            proof {
                                assert(contribution =~= Seq::<MintExtModel>::empty());
                                assert(spec_ext_views(r@) =~= r0 + contribution);
                            }
                        }
                    },
                    Err(_) => {
                        proof {
                            assert(contribution =~= Seq::<MintExtModel>::empty());
                            assert(spec_ext_views(r@) =~= r0 + contribution);
                        }
                    },
                }
            },
            Err(_) => {
                proof {
                    assert(contribution =~= Seq::<MintExtModel>::empty());
                    assert(spec_ext_views(r@) =~= r0 + contribution);
                }
            },
        }
        proof {
            assert(r0 + (contribution + spec_filter_exts(rv.skip(j as int + 1))) =~= (r0
                + contribution) + spec_filter_exts(rv.skip(j as int + 1)));
        }
        j = j + 1;
    }
    proof {
        assert(rv.skip(records@.len() as int) =~= Seq::<RecordModel>::empty());
        assert(spec_ext_views(r@) + Seq::<MintExtModel>::empty() =~= spec_ext_views(r@));
    }
    r
}

} // verus!
