//! The tag-length-value extension wire format: a sequence of
//! `(tag, length, value)` triples with no trailing framing, parsed until the
//! region is exhausted. Unknown tags are preserved as opaque entries so that
//! unrecognized extension kinds never abort decoding of the rest.

use vstd::prelude::*;
use crate::errors::ScanError;
use crate::mint::copy_range;

verus! {

/// Mathematical image of one TLV entry.
pub struct TlvEntryModel {
    pub tag: u16,
    pub length: u16,
    pub value: Seq<u8>,
}

impl TlvEntryModel {
    /// The declared length and the carried value agree.
    pub open spec fn wf(self) -> bool {
        self.value.len() == self.length as int
    }
}

/// One TLV entry: a small-integer extension type tag, a declared length, and
/// that many value bytes, kept opaque.
pub struct TlvEntry {
    pub tag: u16,
    pub length: u16,
    pub value: Vec<u8>,
}

impl View for TlvEntry {
    type V = TlvEntryModel;

    open spec fn view(&self) -> TlvEntryModel {
        TlvEntryModel { tag: self.tag, length: self.length, value: self.value@ }
    }
}

pub open spec fn spec_tlv_views(entries: Seq<TlvEntry>) -> Seq<TlvEntryModel> {
    entries.map_values(|e: TlvEntry| e@)
}

pub open spec fn spec_le_u16(b0: u8, b1: u8) -> u16 {
    (b0 as u16) | ((b1 as u16) << 8)
}

pub open spec fn spec_u16_lo(x: u16) -> u8 {
    (x & 0xff) as u8
}

pub open spec fn spec_u16_hi(x: u16) -> u8 {
    (x >> 8) as u8
}

/// What parsing returns on every region: the entry sequence read from the
/// front until the region is exhausted, or a truncation error when a header
/// is cut short or a declared length runs past the end.
pub open spec fn spec_parse_tlv(region: Seq<u8>) -> Result<Seq<TlvEntryModel>, ScanError>
    decreases region.len(),
{
    if region.len() == 0 {
        Ok(Seq::empty())
    } else if region.len() < 4 {
        Err(ScanError::TruncatedExtension)
    } else {
        let tag = spec_le_u16(region[0], region[1]);
        let length = spec_le_u16(region[2], region[3]);
        if region.len() < 4 + length as int {
            Err(ScanError::TruncatedExtension)
        } else {
            let entry = TlvEntryModel {
                tag,
                length,
                value: region.subrange(4, 4 + length as int),
            };
            match spec_parse_tlv(region.skip(4 + length as int)) {
                Ok(rest) => Ok(seq![entry] + rest),
                Err(e) => Err(e),
            }
        }
    }
}

/// The ordered tag list of an entry sequence.
pub open spec fn spec_tags_of(entries: Seq<TlvEntryModel>) -> Seq<u16> {
    entries.map_values(|e: TlvEntryModel| e.tag)
}

/// The encoding of an entry sequence: each entry contributes its 4-byte
/// little-endian header followed by its value bytes.
pub open spec fn spec_encode_tlv(entries: Seq<TlvEntryModel>) -> Seq<u8>
    decreases entries.len(),
{
    if entries.len() == 0 {
        Seq::empty()
    } else {
        seq![
            spec_u16_lo(entries[0].tag),
            spec_u16_hi(entries[0].tag),
            spec_u16_lo(entries[0].length),
            spec_u16_hi(entries[0].length),
        ] + entries[0].value + spec_encode_tlv(entries.drop_first())
    }
}

fn read_le_u16(data: &Vec<u8>, off: usize) -> (r: u16)
    requires
        off + 2 <= data@.len(),
    ensures
        r == spec_le_u16(data@[off as int], data@[off as int + 1]),
{
    let n = data.len();
    (data[off] as u16) | ((data[off + 1] as u16) << 8)
}

/// Parses a whole extension region into its TLV entries. Fails with
/// `TruncatedExtension` exactly when a header or a declared value runs past
/// the end of the region.
pub fn parse_tlv_entries(region: &Vec<u8>) -> (r: Result<Vec<TlvEntry>, ScanError>)
    ensures
        match r {
            Ok(es) => spec_parse_tlv(region@) == Ok::<Seq<TlvEntryModel>, ScanError>(
                spec_tlv_views(es@),
            ),
            Err(e) => spec_parse_tlv(region@) == Err::<Seq<TlvEntryModel>, ScanError>(e),
        },
{
    let n = region.len();
    let mut entries: Vec<TlvEntry> = Vec::new();
    let mut pos: usize = 0;
    proof {
        assert(region@.skip(0) =~= region@);
        assert(spec_tlv_views(entries@) =~= Seq::<TlvEntryModel>::empty());
        assert(forall|rest: Seq<TlvEntryModel>| spec_tlv_views(entries@) + rest =~= rest);
    }
    while pos < n
        invariant
            pos <= n,
            n == region@.len(),
            spec_parse_tlv(region@) == (match spec_parse_tlv(region@.skip(pos as int)) {
                Ok(rest) => Ok::<Seq<TlvEntryModel>, ScanError>(spec_tlv_views(entries@) + rest),
                Err(e) => Err::<Seq<TlvEntryModel>, ScanError>(e),
            }),
        decreases n - pos,
    {
        let ghost tail = region@.skip(pos as int);
        proof {
            assert(tail.len() == n - pos);
            assert(forall|j: int| 0 <= j < tail.len() ==> tail[j] == region@[pos + j]);
        }
        if n - pos < 4 {
            return Err(ScanError::TruncatedExtension);
        }
        let tag = read_le_u16(region, pos);
        let length = read_le_u16(region, pos + 2);
        proof {
            assert(tag == spec_le_u16(tail[0], tail[1]));
            assert(length == spec_le_u16(tail[2], tail[3]));
        }
        if (length as usize) > n - pos - 4 {
            return Err(ScanError::TruncatedExtension);
        }
        let value = copy_range(region, pos + 4, length as usize);
        let step = 4 + length as usize;
        proof {
            let entry = TlvEntryModel { tag, length, value: tail.subrange(4, 4 + length as int) };
            assert(value@ =~= tail.subrange(4, 4 + length as int));
            assert(region@.skip(pos as int + step as int) =~= tail.skip(4 + length as int));
            assert(spec_tlv_views(entries@.push(TlvEntry { tag, length, value }))
                =~= spec_tlv_views(entries@) + seq![entry]);
            assert(forall|rest: Seq<TlvEntryModel>|
                (spec_tlv_views(entries@) + seq![entry]) + rest =~= spec_tlv_views(entries@) + (
                seq![entry] + rest));
        }
        entries.push(TlvEntry { tag, length, value });
        pos = pos + step;
    }
    proof {
        assert(region@.skip(pos as int) =~= Seq::<u8>::empty());
        assert(spec_tlv_views(entries@) + Seq::<TlvEntryModel>::empty() =~= spec_tlv_views(
            entries@,
        ));
    }
    Ok(entries)
}

/// The ordered list of extension type tags present in a region: the tag of
/// each parsed entry, in encounter order. An empty region yields the empty
/// list, a valid and common result.
pub fn classify_extension_tags(region: &Vec<u8>) -> (r: Result<Vec<u16>, ScanError>)
    ensures
        match (r, spec_parse_tlv(region@)) {
            (Ok(tags), Ok(es)) => tags@ == spec_tags_of(es),
            (Err(e1), Err(e2)) => e1 == e2,
            _ => false,
        },
{
    let entries = match parse_tlv_entries(region) {
        Ok(es) => es,
        Err(e) => {
            return Err(e);
        },
    };
    let mut tags: Vec<u16> = Vec::new();
    let mut i: usize = 0;
    while i < entries.len()
        invariant
            i <= entries@.len(),
            tags@ == spec_tags_of(spec_tlv_views(entries@.take(i as int))),
        decreases entries@.len() - i,
    {
        tags.push(entries[i].tag);
        proof {
            assert(spec_tags_of(spec_tlv_views(entries@.take(i as int + 1))) =~= spec_tags_of(
                spec_tlv_views(entries@.take(i as int)),
            ).push(entries@[i as int]@.tag));
        }
        i = i + 1;
    }
    proof {
        assert(entries@.take(entries@.len() as int) =~= entries@);
    }
    Ok(tags)
}

fn u16_lo(x: u16) -> (r: u8)
    ensures
        r == spec_u16_lo(x),
{
    proof {
        assert((x & 0xff) < 256) by (bit_vector);
    }
    (x & 0xff) as u8
}

fn u16_hi(x: u16) -> (r: u8)
    ensures
        r == spec_u16_hi(x),
{
    proof {
        assert((x >> 8) < 256) by (bit_vector);
    }
    (x >> 8) as u8
}

/// Encodes an entry sequence back to wire bytes.
pub fn encode_tlv_entries(entries: &Vec<TlvEntry>) -> (r: Vec<u8>)
    ensures
        r@ == spec_encode_tlv(spec_tlv_views(entries@)),
{
    let ghost vs = spec_tlv_views(entries@);
    let mut r: Vec<u8> = Vec::new();
    let mut i: usize = 0;
    proof {
        assert(vs.skip(0) =~= vs);
        assert(r@ + spec_encode_tlv(vs) =~= spec_encode_tlv(vs));
    }
    while i < entries.len()
        invariant
            i <= entries@.len(),
            vs == spec_tlv_views(entries@),
            spec_encode_tlv(vs) == r@ + spec_encode_tlv(vs.skip(i as int)),
        decreases entries@.len() - i,
    {
        let ghost r0 = r@;
        let e = &entries[i];
        r.push(u16_lo(e.tag));
        r.push(u16_hi(e.tag));
        r.push(u16_lo(e.length));
        r.push(u16_hi(e.length));
        let mut j: usize = 0;
        let m = e.value.len();
        while j < m
            invariant
                j <= m,
                m == e.value@.len(),
                r@ == r0 + seq![
                    spec_u16_lo(e@.tag),
                    spec_u16_hi(e@.tag),
                    spec_u16_lo(e@.length),
                    spec_u16_hi(e@.length),
                ] + e.value@.take(j as int),
            decreases m - j,
        {
            r.push(e.value[j]);
            proof {
                assert(e.value@.take(j as int + 1) =~= e.value@.take(j as int).push(
                    e.value@[j as int],
                ));
            }
            j = j + 1;
        }
        proof {
            let tail = vs.skip(i as int);
            assert(tail[0] == vs[i as int]);
            assert(tail.drop_first() =~= vs.skip(i as int + 1));
            assert(e.value@.take(m as int) =~= e.value@);
            assert(vs[i as int] == entries@[i as int]@);
            assert(spec_encode_tlv(tail) == seq![
                spec_u16_lo(e@.tag),
                spec_u16_hi(e@.tag),
                spec_u16_lo(e@.length),
                spec_u16_hi(e@.length),
            ] + e.value@ + spec_encode_tlv(vs.skip(i as int + 1)));
            assert(r@ =~= r0 + (seq![
                spec_u16_lo(e@.tag),
                spec_u16_hi(e@.tag),
                spec_u16_lo(e@.length),
                spec_u16_hi(e@.length),
            ] + e.value@));
            assert(r@ + spec_encode_tlv(vs.skip(i as int + 1)) =~= r0 + spec_encode_tlv(tail));
        }
        i = i + 1;
    }
    proof {
        assert(vs.skip(vs.len() as int) =~= Seq::<TlvEntryModel>::empty());
        assert(r@ + Seq::<u8>::empty() =~= r@);
    }
    r
}

proof fn lemma_le_u16_round_trip(x: u16)
    ensures
        spec_le_u16(spec_u16_lo(x), spec_u16_hi(x)) == x,
{
    assert((((x & 0xff) as u8) as u16) | ((((x >> 8) as u8) as u16) << 8) == x) by (bit_vector);
}

/// The TLV round-trip law: encoding any well-formed entry sequence and
/// parsing the result yields the same entries back, so classification of the
/// encoding reproduces the same ordered tag list.
pub proof fn lemma_tlv_round_trip(entries: Seq<TlvEntryModel>)
    requires
        forall|i: int| 0 <= i < entries.len() ==> (#[trigger] entries[i]).wf(),
    ensures
        spec_parse_tlv(spec_encode_tlv(entries)) == Ok::<Seq<TlvEntryModel>, ScanError>(entries),
        spec_parse_tlv(spec_encode_tlv(entries)) matches Ok(es) && spec_tags_of(es) == spec_tags_of(
            entries,
        ),
    decreases entries.len(),
{
    if entries.len() == 0 {
        assert(entries =~= Seq::<TlvEntryModel>::empty());
    } else {
        let e = entries[0];
        let rest = entries.drop_first();
        assert(forall|i: int| 0 <= i < rest.len() ==> (#[trigger] rest[i]).wf()) by {
            assert(forall|i: int| 0 <= i < rest.len() ==> rest[i] == entries[i + 1]);
        }
        lemma_tlv_round_trip(rest);
        let header = seq![
            spec_u16_lo(e.tag),
            spec_u16_hi(e.tag),
            spec_u16_lo(e.length),
            spec_u16_hi(e.length),
        ];
        let enc = spec_encode_tlv(entries);
        assert(enc == header + e.value + spec_encode_tlv(rest));
        lemma_le_u16_round_trip(e.tag);
        lemma_le_u16_round_trip(e.length);
        assert(enc[0] == spec_u16_lo(e.tag) && enc[1] == spec_u16_hi(e.tag));
        assert(enc[2] == spec_u16_lo(e.length) && enc[3] == spec_u16_hi(e.length));
        assert(spec_le_u16(enc[0], enc[1]) == e.tag);
        assert(spec_le_u16(enc[2], enc[3]) == e.length);
        assert(e.value.len() == e.length as int);
        assert(enc.len() == 4 + e.value.len() + spec_encode_tlv(rest).len());
        assert(enc.subrange(4, 4 + e.length as int) =~= e.value);
        assert(enc.skip(4 + e.length as int) =~= spec_encode_tlv(rest));
        let parsed_head = TlvEntryModel {
            tag: spec_le_u16(enc[0], enc[1]),
            length: spec_le_u16(enc[2], enc[3]),
            value: enc.subrange(4, 4 + spec_le_u16(enc[2], enc[3]) as int),
        };
        assert(parsed_head == e);
        assert(seq![e] + rest =~= entries);
    }
}

} // verus!
