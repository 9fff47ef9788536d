//! The Register / Resolve protocol over a content-addressed slot store.
//!
//! The store maps slot ids to fixed-size slot images and obeys a
//! create-once, read-many discipline: Register allocates a fresh slot (and
//! fails with `AlreadyExists` on an occupied one), Resolve reads one, and no
//! operation mutates or removes an existing slot. A registry is viewed as a
//! `Map` from slot-id bytes to the 327-byte images.

use crate::address::{derive_slot_id, lemma_slot_id_injective, slot_id_of};
use crate::bytes::bytes_eq;
use crate::codec::{decode, decode_spec, encode, encode_spec, lemma_codec_round_trip};
use crate::error::DnsError;
use crate::record::{model_wf, DomainRecord, RecordModel, AUTHORITY_LEN};
use crate::validate::{domain_valid, ip_valid, validate_domain, validate_record};
use vstd::prelude::*;

verus! {

/// Host-supplied context of a registration: the authenticated identity of
/// the transaction signer and the host clock's reading at write time.
pub struct RegisterDomain {
    pub authority: Vec<u8>,
    pub now: i64,
}

/// Host-supplied context of a resolution: the authenticated identity of the
/// caller. Recorded for diagnostics only; resolution never consults it.
pub struct ResolveDomain {
    pub authority: Vec<u8>,
}

/// One allocated slot: its id and its 327-byte image.
struct Slot {
    id: Vec<u8>,
    data: Vec<u8>,
}

/// The slot store as a map from slot-id bytes to slot images.
spec fn map_of(slots: Seq<Slot>) -> Map<Seq<u8>, Seq<u8>>
    decreases slots.len(),
{
    if slots.len() == 0 {
        Map::empty()
    } else {
        map_of(slots.drop_last()).insert(slots.last().id@, slots.last().data@)
    }
}

/// No two slots share an id.
spec fn unique_ids(slots: Seq<Slot>) -> bool {
    forall|i: int, j: int| 0 <= i < j < slots.len() ==> slots[i].id@ != slots[j].id@
}

/// Every slot holds the encoding of a validated record whose domain derives
/// the slot's own id: the address-content binding of the store.
spec fn slots_bound(slots: Seq<Slot>) -> bool {
    forall|i: int|
        0 <= i < slots.len() ==> exists|m: RecordModel|
            {
                &&& model_wf(m)
                &&& domain_valid(m.domain_name)
                &&& ip_valid(m.record)
                &&& (#[trigger] slots[i]).id@ == slot_id_of(m.domain_name)
                &&& slots[i].data@ == encode_spec(m)
            }
}

/// What a Register of `(domain, record)` returns against store `m`.
pub open spec fn register_outcome(
    m: Map<Seq<u8>, Seq<u8>>,
    domain: Seq<u8>,
    record: Seq<u8>,
) -> Result<(), DnsError> {
    if !domain_valid(domain) {
        Err(DnsError::InvalidDomain)
    } else if !ip_valid(record) {
        Err(DnsError::InvalidIp)
    } else if m.contains_key(slot_id_of(domain)) {
        Err(DnsError::AlreadyExists)
    } else {
        Ok(())
    }
}

/// What a Resolve of `domain` returns against store `m`.
pub open spec fn resolve_outcome(m: Map<Seq<u8>, Seq<u8>>, domain: Seq<u8>) -> Result<
    RecordModel,
    DnsError,
> {
    if !m.contains_key(slot_id_of(domain)) {
        Err(DnsError::NotFound)
    } else {
        match decode_spec(m[slot_id_of(domain)]) {
            Some(rec) => Ok(rec),
            None => Err(DnsError::CorruptRecord),
        }
    }
}

/// The name registry: a single-writer store in which each validated domain
/// owns at most one slot, written once by a successful Register and
/// thereafter immutable.
pub struct Registry {
    slots: Vec<Slot>,
}

impl View for Registry {
    type V = Map<Seq<u8>, Seq<u8>>;

    closed spec fn view(&self) -> Map<Seq<u8>, Seq<u8>> {
        map_of(self.slots@)
    }
}

/// A key is in the store's map exactly when some slot carries it.
proof fn lemma_map_of_contains(slots: Seq<Slot>, k: Seq<u8>)
    ensures
        map_of(slots).contains_key(k) <==> exists|i: int|
            0 <= i < slots.len() && (#[trigger] slots[i]).id@ == k,
    decreases slots.len(),
{
    if slots.len() > 0 {
        lemma_map_of_contains(slots.drop_last(), k);
        if slots.last().id@ == k {
            assert(slots[slots.len() - 1].id@ == k);
        } else if map_of(slots).contains_key(k) {
            let i = choose|i: int|
                0 <= i < slots.drop_last().len() && (#[trigger] slots.drop_last()[i]).id@ == k;
            assert(slots[i].id@ == k);
        } else if exists|i: int| 0 <= i < slots.len() && (#[trigger] slots[i]).id@ == k {
            let i = choose|i: int| 0 <= i < slots.len() && (#[trigger] slots[i]).id@ == k;
            assert(slots.drop_last()[i].id@ == k);
        }
    }
}

/// Under unique ids, the map's value at a slot's id is that slot's image.
proof fn lemma_map_of_value(slots: Seq<Slot>, i: int)
    requires
        unique_ids(slots),
        0 <= i < slots.len(),
    ensures
        map_of(slots).contains_key(slots[i].id@),
        map_of(slots)[slots[i].id@] == slots[i].data@,
    decreases slots.len(),
{
    if i == slots.len() - 1 {
    } else {
        assert(slots[i].id@ != slots.last().id@);
        assert(slots.drop_last()[i] == slots[i]);
        lemma_map_of_value(slots.drop_last(), i);
    }
}

impl Registry {
    /// The store's invariant: unique slot ids, and every slot the 327-byte
    /// encoding of a validated record whose domain derives the slot's id.
    pub closed spec fn wf(&self) -> bool {
        &&& unique_ids(self.slots@)
        &&& slots_bound(self.slots@)
    }

    /// An empty registry.
    pub fn new() -> (r: Registry)
        ensures
            r.wf(),
            r@ == Map::<Seq<u8>, Seq<u8>>::empty(),
    {
        Registry { slots: Vec::new() }
    }

    /// The index of the slot carrying `id`, if one does.
    fn find_slot(&self, id: &Vec<u8>) -> (r: Option<usize>)
        ensures
            match r {
                Some(i) => i < self.slots@.len() && self.slots@[i as int].id@ == id@,
                None => forall|i: int|
                    0 <= i < self.slots@.len() ==> (#[trigger] self.slots@[i]).id@ != id@,
            },
    {
        let mut i: usize = 0;
        while i < self.slots.len()
            invariant
                i <= self.slots@.len(),
                forall|p: int| 0 <= p < i ==> (#[trigger] self.slots@[p]).id@ != id@,
            decreases self.slots@.len() - i,
        {
            if bytes_eq(&self.slots[i].id, id) {
                return Some(i);
            }
            i = i + 1;
        }
        None
    }

    /// Register: validate the domain and the record, derive the domain's
    /// slot id, allocate a fresh slot under it (failing if it is occupied),
    /// and write the encoded record; on any failure the store is untouched.
    pub fn register_request(
        &mut self,
        domain: Vec<u8>,
        record: Vec<u8>,
        ctx: RegisterDomain,
    ) -> (r: Result<(), DnsError>)
        requires
            old(self).wf(),
            ctx.authority@.len() == AUTHORITY_LEN,
        ensures
            final(self).wf(),
            r == register_outcome(old(self)@, domain@, record@),
            r matches Ok(()) ==> final(self)@ == old(self)@.insert(
                slot_id_of(domain@),
                encode_spec(
                    RecordModel {
                        domain_name: domain@,
                        record: record@,
                        authority: ctx.authority@,
                        created_at: ctx.now,
                    },
                ),
            ),
            r is Err ==> final(self)@ == old(self)@,
    {
        if !validate_domain(&domain) {
            return Err(DnsError::InvalidDomain);
        }
        if !validate_record(&record) {
            return Err(DnsError::InvalidIp);
        }
        let id = derive_slot_id(&domain);
        match self.find_slot(&id) {
            Some(i) => {
                proof {
                    lemma_map_of_value(self.slots@, i as int);
                }
                Err(DnsError::AlreadyExists)
            },
            None => {
                proof {
                    lemma_map_of_contains(self.slots@, id@);
                }
                let rec = DomainRecord {
                    domain_name: domain,
                    record,
                    authority: ctx.authority,
                    created_at: ctx.now,
                };
                let data = encode(&rec);
                let ghost old_slots = self.slots@;
                self.slots.push(Slot { id, data });
                proof {
                    assert(self.slots@.drop_last() =~= old_slots);
                    assert forall|p: int, q: int|
                        0 <= p < q < self.slots@.len() implies self.slots@[p].id@
                        != self.slots@[q].id@ by {
                        if q == self.slots@.len() - 1 {
                            assert(old_slots[p].id@ != slot_id_of(rec@.domain_name));
                        }
                    }
                    assert forall|p: int| 0 <= p < self.slots@.len() implies exists|m: RecordModel|
                        {
                            &&& model_wf(m)
                            &&& domain_valid(m.domain_name)
                            &&& ip_valid(m.record)
                            &&& (#[trigger] self.slots@[p]).id@ == slot_id_of(m.domain_name)
                            &&& self.slots@[p].data@ == encode_spec(m)
                        } by {
                        if p < self.slots@.len() - 1 {
                            assert(old_slots[p] == self.slots@[p]);
                            assert(exists|m: RecordModel|
                                {
                                    &&& model_wf(m)
                                    &&& domain_valid(m.domain_name)
                                    &&& ip_valid(m.record)
                                    &&& (#[trigger] old_slots[p]).id@ == slot_id_of(m.domain_name)
                                    &&& old_slots[p].data@ == encode_spec(m)
                                });
                        } else {
                            let m = rec@;
                            assert(model_wf(m) && domain_valid(m.domain_name) && ip_valid(m.record)
                                && self.slots@[p].id@ == slot_id_of(m.domain_name)
                                && self.slots@[p].data@ == encode_spec(m));
                        }
                    }
                }
                Ok(())
            },
        }
    }

    /// Resolve: derive the domain's slot id (the domain is not re-validated,
    /// so any domain whose registration succeeded resolves), load the slot,
    /// and decode its image into the four stored fields.
    pub fn resolve_domain(&self, domain: Vec<u8>, _ctx: ResolveDomain) -> (r: Result<
        DomainRecord,
        DnsError,
    >)
        requires
            self.wf(),
        ensures
            match r {
                Ok(rec) => resolve_outcome(self@, domain@) == Ok::<RecordModel, DnsError>(rec@),
                Err(e) => resolve_outcome(self@, domain@) == Err::<RecordModel, DnsError>(e),
            },
            // the store's invariant rules corruption out: only an absent
            // slot can fail a Resolve
            !(r matches Err(DnsError::CorruptRecord)),
    {
        let id = derive_slot_id(&domain);
        match self.find_slot(&id) {
            None => {
                proof {
                    lemma_map_of_contains(self.slots@, id@);
                }
                Err(DnsError::NotFound)
            },
            Some(i) => {
                proof {
                    lemma_map_of_value(self.slots@, i as int);
                    let m = choose|m: RecordModel|
                        {
                            &&& model_wf(m)
                            &&& domain_valid(m.domain_name)
                            &&& ip_valid(m.record)
                            &&& self.slots@[i as int].id@ == slot_id_of(m.domain_name)
                            &&& self.slots@[i as int].data@ == encode_spec(m)
                        };
                    lemma_codec_round_trip(m);
                }
                match decode(&self.slots[i].data) {
                    Some(rec) => Ok(rec),
                    None => Err(DnsError::CorruptRecord),
                }
            },
        }
    }
}

/// A successful Register is followed by a Resolve that returns exactly the
/// written fields: inserting the encoding of the validated record under the
/// domain's slot id makes Resolve of that domain return that record.
pub proof fn lemma_register_then_resolve(
    m: Map<Seq<u8>, Seq<u8>>,
    domain: Seq<u8>,
    record: Seq<u8>,
    authority: Seq<u8>,
    now: i64,
)
    requires
        register_outcome(m, domain, record) == Ok::<(), DnsError>(()),
        authority.len() == AUTHORITY_LEN,
    ensures
        ({
            let rec = RecordModel {
                domain_name: domain,
                record: record,
                authority: authority,
                created_at: now,
            };
            resolve_outcome(m.insert(slot_id_of(domain), encode_spec(rec)), domain) == Ok::<
                RecordModel,
                DnsError,
            >(rec)
        }),
{
    let rec = RecordModel {
        domain_name: domain,
        record: record,
        authority: authority,
        created_at: now,
    };
    lemma_codec_round_trip(rec);
}

/// Two Registers of the same domain produce one success and one
/// `AlreadyExists`: once a Register of `domain` has succeeded, any further
/// Register of `domain` returns `AlreadyExists`, whatever its record.
pub proof fn lemma_register_twice(
    m: Map<Seq<u8>, Seq<u8>>,
    domain: Seq<u8>,
    record1: Seq<u8>,
    record2: Seq<u8>,
    data: Seq<u8>,
)
    requires
        register_outcome(m, domain, record1) == Ok::<(), DnsError>(()),
        ip_valid(record2),
    ensures
        register_outcome(m.insert(slot_id_of(domain), data), domain, record2) == Err::<
            (),
            DnsError,
        >(DnsError::AlreadyExists),
{
}

/// Registering one domain leaves every other domain's slot untouched: a
/// Resolve of a distinct domain returns after the Register exactly what it
/// returned before.
pub proof fn lemma_register_isolates(
    m: Map<Seq<u8>, Seq<u8>>,
    domain: Seq<u8>,
    other: Seq<u8>,
    data: Seq<u8>,
)
    requires
        domain != other,
    ensures
        resolve_outcome(m.insert(slot_id_of(domain), data), other) == resolve_outcome(m, other),
{
    lemma_slot_id_injective(domain, other);
}

} // verus!
