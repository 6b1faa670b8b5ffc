//! Fixed-offset decoding of a mint record: a fixed 82-byte base layout,
//! followed (when the record is longer) by an opaque TLV extension region.

use vstd::prelude::*;
use crate::address::Address;
use crate::errors::ScanError;

verus! {

/// Size of the fixed base layout: an optional 32-byte mint authority with a
/// 4-byte presence tag, an 8-byte supply, one decimals byte, one
/// is-initialized byte, and an optional 32-byte freeze authority with its own
/// 4-byte presence tag.
pub const BASE_MINT_LEN: usize = 82;

/// Offset of the is-initialized flag byte inside the base layout.
pub const IS_INITIALIZED_OFFSET: usize = 45;

/// Mathematical image of a decoded mint.
pub struct MintModel {
    pub mint_authority: Option<Seq<u8>>,
    pub supply: u64,
    pub decimals: u8,
    pub is_initialized: bool,
    pub freeze_authority: Option<Seq<u8>>,
    pub extension_region: Seq<u8>,
}

/// A decoded mint: the fixed base fields plus the trailing extension region,
/// which is kept opaque here and handed unparsed to the classifier.
#[derive(Debug)]
pub struct DecodedMint {
    pub mint_authority: Option<Address>,
    pub supply: u64,
    pub decimals: u8,
    pub is_initialized: bool,
    pub freeze_authority: Option<Address>,
    pub extension_region: Vec<u8>,
}

impl View for DecodedMint {
    type V = MintModel;

    open spec fn view(&self) -> MintModel {
        MintModel {
            mint_authority: match self.mint_authority {
                Some(a) => Some(a@),
                None => None,
            },
            supply: self.supply,
            decimals: self.decimals,
            is_initialized: self.is_initialized,
            freeze_authority: match self.freeze_authority {
                Some(a) => Some(a@),
                None => None,
            },
            extension_region: self.extension_region@,
        }
    }
}

impl DecodedMint {
    pub open spec fn wf(&self) -> bool {
        &&& match self.mint_authority {
            Some(a) => a.wf(),
            None => true,
        }
        &&& match self.freeze_authority {
            Some(a) => a.wf(),
            None => true,
        }
    }
}

/// A little-endian 64-bit field read at a fixed offset.
pub open spec fn spec_le_u64(b: Seq<u8>, off: int) -> u64 {
    (b[off] as u64) | ((b[off + 1] as u64) << 8) | ((b[off + 2] as u64) << 16) | ((b[off + 3]
        as u64) << 24) | ((b[off + 4] as u64) << 32) | ((b[off + 5] as u64) << 40) | ((b[off + 6]
        as u64) << 48) | ((b[off + 7] as u64) << 56)
}

/// A 4-byte little-endian presence tag for an optional field: 0 absent,
/// 1 present, anything else malformed.
pub open spec fn spec_coption_tag_ok(b: Seq<u8>, off: int) -> bool {
    (b[off] == 0 || b[off] == 1) && b[off + 1] == 0 && b[off + 2] == 0 && b[off + 3] == 0
}

/// Whether a byte sequence decodes as a mint: long enough for the base
/// layout, both presence tags valid, and the is-initialized byte a boolean.
pub open spec fn spec_mint_decode_ok(data: Seq<u8>) -> bool {
    &&& data.len() >= 82
    &&& spec_coption_tag_ok(data, 0)
    &&& spec_coption_tag_ok(data, 46)
    &&& (data[45] == 0 || data[45] == 1)
}

/// What decoding returns on every input: the field-by-field reading of the
/// base layout and the untouched suffix, or a malformed-record error.
pub open spec fn spec_decode_mint(data: Seq<u8>) -> Result<MintModel, ScanError> {
    if spec_mint_decode_ok(data) {
        Ok(
            MintModel {
                mint_authority: if data[0] == 1 {
                    Some(data.subrange(4, 36))
                } else {
                    None
                },
                supply: spec_le_u64(data, 36),
                decimals: data[44],
                is_initialized: data[45] == 1,
                freeze_authority: if data[46] == 1 {
                    Some(data.subrange(50, 82))
                } else {
                    None
                },
                extension_region: data.skip(82),
            },
        )
    } else {
        Err(ScanError::MalformedRecord)
    }
}

/// Copies `len` bytes of `data` starting at `start`.
pub fn copy_range(data: &Vec<u8>, start: usize, len: usize) -> (r: Vec<u8>)
    requires
        start + len <= data@.len(),
    ensures
        r@ == data@.subrange(start as int, start as int + len as int),
{
    let n = data.len();
    let mut r: Vec<u8> = Vec::new();
    let mut i: usize = 0;
    while i < len
        invariant
            i <= len,
            start + len <= n,
            n == data@.len(),
            r@.len() == i,
            forall|j: int| 0 <= j < i ==> r@[j] == data@[start + j],
        decreases len - i,
    {
        r.push(data[start + i]);
        i = i + 1;
    }
    proof {
        assert(r@ =~= data@.subrange(start as int, start as int + len as int));
    }
    r
}

fn read_le_u64(data: &Vec<u8>, off: usize) -> (r: u64)
    requires
        off + 8 <= data@.len(),
    ensures
        r == spec_le_u64(data@, off as int),
{
    let n = data.len();
    (data[off] as u64) | ((data[off + 1] as u64) << 8) | ((data[off + 2] as u64) << 16) | ((data[off
        + 3] as u64) << 24) | ((data[off + 4] as u64) << 32) | ((data[off + 5] as u64) << 40) | ((
    data[off + 6] as u64) << 48) | ((data[off + 7] as u64) << 56)
}

/// Decodes the fixed base layout of a mint record. Fails with
/// `MalformedRecord` exactly when the record is shorter than the base layout
/// or a fixed field is out of range. The is-initialized flag is decoded as
/// found: it is a fast filter, not a validity proof, and stays visible to
/// callers.
pub fn decode_mint(data: &Vec<u8>) -> (r: Result<DecodedMint, ScanError>)
    ensures
        match r {
            Ok(m) => spec_decode_mint(data@) == Ok::<MintModel, ScanError>(m@) && m.wf(),
            Err(e) => spec_decode_mint(data@) == Err::<MintModel, ScanError>(e),
        },
{
    if data.len() < 82 {
        return Err(ScanError::MalformedRecord);
    }
    if !(data[0] == 0 || data[0] == 1) || data[1] != 0 || data[2] != 0 || data[3] != 0 {
        return Err(ScanError::MalformedRecord);
    }
    if !(data[46] == 0 || data[46] == 1) || data[47] != 0 || data[48] != 0 || data[49] != 0 {
        return Err(ScanError::MalformedRecord);
    }
    if !(data[45] == 0 || data[45] == 1) {
        return Err(ScanError::MalformedRecord);
    }
    let mint_authority: Option<Address> = if data[0] == 1 {
        Some(Address::new(copy_range(data, 4, 32)))
    } else {
        None
    };
    let freeze_authority: Option<Address> = if data[46] == 1 {
        Some(Address::new(copy_range(data, 50, 32)))
    } else {
        None
    };
    let extension_region = copy_range(data, 82, data.len() - 82);
    proof {
        assert(extension_region@ =~= data@.skip(82));
    }
    Ok(
        DecodedMint {
            mint_authority,
            supply: read_le_u64(data, 36),
            decimals: data[44],
            is_initialized: data[45] == 1,
            freeze_authority,
            extension_region,
        },
    )
}

} // verus!
