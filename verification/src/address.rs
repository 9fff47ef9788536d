//! Slot-id derivation.
//!
//! Every stored record lives in a slot keyed by the pair of the fixed ASCII
//! namespace tag `"domain"` and the domain's bytes. The registry keys its
//! store by exactly that seed pair, concatenated: the host's derivation is
//! required to be injective over it, so the concatenation is a faithful model
//! of the derived identifier, and its injectivity is proved below.
//!
//! For clients that need the host's concrete fixed-width address (a program
//! derived address), [`derive_slot_address`] computes it from the same seeds.

use crate::bytes::append_bytes;
use vstd::prelude::*;

verus! {

/// The fixed ASCII namespace tag `"domain"`, the first seed of every
/// derivation of this registry.
pub open spec fn namespace_tag() -> Seq<u8> {
    seq![0x64u8, 0x6fu8, 0x6du8, 0x61u8, 0x69u8, 0x6eu8]
}

/// The slot id of a domain: the namespace tag followed by the domain bytes.
pub open spec fn slot_id_of(domain: Seq<u8>) -> Seq<u8> {
    namespace_tag() + domain
}

/// The namespace tag as a vector (the bytes of `"domain"`).
pub fn namespace_tag_bytes() -> (r: Vec<u8>)
    ensures
        r@ == namespace_tag(),
{
    let mut v: Vec<u8> = Vec::new();
    v.push(0x64u8);
    v.push(0x6fu8);
    v.push(0x6du8);
    v.push(0x61u8);
    v.push(0x69u8);
    v.push(0x6eu8);
    proof {
        assert(v@ =~= namespace_tag());
    }
    v
}

/// Computes the storage slot id of a domain.
pub fn derive_slot_id(domain: &Vec<u8>) -> (r: Vec<u8>)
    ensures
        r@ == slot_id_of(domain@),
{
    let mut id = namespace_tag_bytes();
    append_bytes(&mut id, domain);
    id
}

/// Distinct domains have distinct slot ids: the tag is a fixed-length
/// prefix, so the concatenation is injective in the domain.
pub proof fn lemma_slot_id_injective(d1: Seq<u8>, d2: Seq<u8>)
    requires
        d1 != d2,
    ensures
        slot_id_of(d1) != slot_id_of(d2),
{
    if slot_id_of(d1) == slot_id_of(d2) {
        assert(slot_id_of(d1).len() == 6 + d1.len());
        assert(slot_id_of(d2).len() == 6 + d2.len());
        assert forall|i: int| 0 <= i < d1.len() implies d1[i] == d2[i] by {
            assert(slot_id_of(d1)[6 + i] == d1[i]);
            assert(slot_id_of(d2)[6 + i] == d2[i]);
        }
        assert(d1 =~= d2);
    }
}

/// The program derived address of a seed pair under a program id, as the
/// host computes it. The derivation is a pure function of its arguments.
pub uninterp spec fn pda_of(tag: Seq<u8>, domain: Seq<u8>, program_id: Seq<u8>) -> Seq<u8>;

/// Whether the host's bump-seed search finds an address for a seed pair
/// under a program id. The search is deterministic, so success too is a
/// pure function of its arguments.
pub uninterp spec fn pda_found(tag: Seq<u8>, domain: Seq<u8>, program_id: Seq<u8>) -> bool;

/// Relies on `Pubkey::try_find_program_address` of anchor_lang: the search
/// over bump seeds is deterministic, so whether an address is found, and
/// which, are functions of the seeds and the program id alone, and an
/// address is 32 bytes.
#[verifier::external_body]
fn find_program_address_bytes(tag: &Vec<u8>, domain: &Vec<u8>, program_id: &Vec<u8>) -> (r: Option<
    Vec<u8>,
>)
    requires
        program_id@.len() == 32,
    ensures
        r is Some <==> pda_found(tag@, domain@, program_id@),
        r matches Some(b) ==> b@ == pda_of(tag@, domain@, program_id@) && b@.len() == 32,
{
    let pid_bytes: [u8; 32] = match program_id.as_slice().try_into() {
        Ok(a) => a,
        Err(_) => return None,
    };
    let pid = anchor_lang::solana_program::pubkey::Pubkey::new_from_array(pid_bytes);
    match anchor_lang::solana_program::pubkey::Pubkey::try_find_program_address(
        &[tag.as_slice(), domain.as_slice()],
        &pid,
    ) {
        Some((addr, _bump)) => Some(addr.to_bytes().to_vec()),
        None => None,
    }
}

/// The host's concrete fixed-width address of a domain's slot: the program
/// derived address of the namespace tag and the domain under `program_id`.
/// Returns `None` in the statistically improbable event that the host's
/// bump-seed search fails (in particular, for domains longer than the
/// host's per-seed cap of 32 bytes).
pub fn derive_slot_address(domain: &Vec<u8>, program_id: &Vec<u8>) -> (r: Option<Vec<u8>>)
    requires
        program_id@.len() == 32,
    ensures
        r is Some <==> pda_found(namespace_tag(), domain@, program_id@),
        r matches Some(b) ==> b@ == pda_of(namespace_tag(), domain@, program_id@) && b@.len()
            == 32,
{
    let tag = namespace_tag_bytes();
    find_program_address_bytes(&tag, domain, program_id)
}

} // verus!
