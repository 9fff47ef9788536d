//! The one persistent entity of the registry: a domain's stored record.

use crate::validate::{MAX_DOMAIN_LEN, MAX_RECORD_LEN};
use vstd::prelude::*;

verus! {

/// Length in bytes of the opaque caller identity token.
pub const AUTHORITY_LEN: usize = 32;

/// Mathematical view of a [`DomainRecord`]: plain byte sequences and the
/// timestamp.
#[verifier::ext_equal]
pub struct RecordModel {
    pub domain_name: Seq<u8>,
    pub record: Seq<u8>,
    pub authority: Seq<u8>,
    pub created_at: i64,
}

/// The bounded-length caps of the stored layout: up to 256 domain bytes, up
/// to 15 record bytes, and exactly 32 authority bytes.
pub open spec fn model_wf(m: RecordModel) -> bool {
    &&& m.domain_name.len() <= MAX_DOMAIN_LEN
    &&& m.record.len() <= MAX_RECORD_LEN
    &&& m.authority.len() == AUTHORITY_LEN
}

/// A domain's stored record: the domain itself (echoed at write time), its
/// IPv4 record string, the 32-byte identity that registered it, and the
/// host-clock timestamp of the registration. Created once by a successful
/// Register, never mutated.
pub struct DomainRecord {
    pub domain_name: Vec<u8>,
    pub record: Vec<u8>,
    pub authority: Vec<u8>,
    pub created_at: i64,
}

impl View for DomainRecord {
    type V = RecordModel;

    open spec fn view(&self) -> RecordModel {
        RecordModel {
            domain_name: self.domain_name@,
            record: self.record@,
            authority: self.authority@,
            created_at: self.created_at,
        }
    }
}

impl DomainRecord {
    /// The record's fields satisfy the bounded-length caps of the layout.
    pub open spec fn wf(&self) -> bool {
        model_wf(self@)
    }
}

} // verus!
