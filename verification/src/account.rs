//! Raw account records as the external data source returns them, and the
//! notion of a dead (closed but still ledger-resident) record.

use vstd::prelude::*;
use crate::address::Address;
use crate::address::spec_system_program_id;
use crate::address::system_program_id;

verus! {

/// Mathematical image of a raw account record.
pub struct RecordModel {
    pub address: Seq<u8>,
    pub owner: Seq<u8>,
    pub lamport_balance: u64,
    pub data: Seq<u8>,
}

/// A raw on-chain account record: never mutated locally, read-only and
/// request-scoped.
pub struct RawAccountRecord {
    pub address: Address,
    pub owner: Address,
    pub lamport_balance: u64,
    pub data: Vec<u8>,
}

impl View for RawAccountRecord {
    type V = RecordModel;

    open spec fn view(&self) -> RecordModel {
        RecordModel {
            address: self.address@,
            owner: self.owner@,
            lamport_balance: self.lamport_balance,
            data: self.data@,
        }
    }
}

/// A record is dead when it carries no balance, holds no data, or has been
/// handed back to the system-reserved "no program" owner: a slot that once
/// held an account but has since been closed.
pub open spec fn spec_is_dead(r: RecordModel) -> bool {
    ||| r.lamport_balance == 0
    ||| r.data.len() == 0
    ||| r.owner == spec_system_program_id()
}

impl RawAccountRecord {
    pub open spec fn wf(&self) -> bool {
        self.address.wf() && self.owner.wf()
    }

    pub fn is_dead(&self) -> (r: bool)
        ensures
            r == spec_is_dead(self@),
    {
        if self.lamport_balance == 0 {
            return true;
        }
        if self.data.len() == 0 {
            return true;
        }
        let sys = system_program_id();
        self.owner.eq_address(&sys)
    }
}

/// The model of one optional record, as fetching returns it.
pub open spec fn spec_opt_record(o: Option<RawAccountRecord>) -> Option<RecordModel> {
    match o {
        Some(r) => Some(r@),
        None => None,
    }
}

/// The model of a fetched slot list.
pub open spec fn spec_opt_records(s: Seq<Option<RawAccountRecord>>) -> Seq<Option<RecordModel>> {
    s.map_values(|o: Option<RawAccountRecord>| spec_opt_record(o))
}

} // verus!
