//! Identity and record addressing.
//!
//! A record's storage address is a pure function of the record kind, the
//! owner's identity and, for notes, the note's sequence number. The canonical
//! seed for a record concatenates a domain tag for the kind, the owner's raw
//! identity bytes and the sequence number's fixed-width little-endian
//! encoding; distinct records never share a seed. The external store then
//! derives its own 32-byte location from that seed.

use vstd::prelude::*;

verus! {

/// A caller's fixed-size public identifier, as the external signature layer
/// hands it over.
#[derive(Clone, Copy)]
pub struct Identity {
    pub bytes: [u8; 32],
}

impl View for Identity {
    type V = Seq<u8>;

    open spec fn view(&self) -> Seq<u8> {
        self.bytes@
    }
}

/// Compares two identities byte for byte.
pub fn identity_eq(a: &Identity, b: &Identity) -> (r: bool)
    ensures
        r == (a@ == b@),
{
    let mut i: usize = 0;
    while i < 32
        invariant
            i <= 32,
            forall|j: int| 0 <= j < i ==> a.bytes@[j] == b.bytes@[j],
        decreases 32 - i,
    {
        if a.bytes[i] != b.bytes[i] {
            assert(a@ != b@);
            return false;
        }
        i += 1;
    }
    assert(a@ =~= b@);
    true
}

/// The storage address of a record: the record kind, the owner and, for a
/// note, its sequence number. Distinct owners or kinds or numbers give
/// distinct addresses by construction.
#[derive(Clone, Copy)]
pub enum Address {
    Profile { owner: Identity },
    Note { owner: Identity, id: u64 },
}

/// The mathematical model of an [`Address`]: the owner identity is a byte
/// sequence.
pub enum AddressView {
    Profile { owner: Seq<u8> },
    Note { owner: Seq<u8>, id: u64 },
}

impl View for Address {
    type V = AddressView;

    open spec fn view(&self) -> AddressView {
        match *self {
            Address::Profile { owner } => AddressView::Profile { owner: owner@ },
            Address::Note { owner, id } => AddressView::Note { owner: owner@, id },
        }
    }
}

/// The address of `owner`'s profile record, as a model value.
pub open spec fn profile_addr(owner: Seq<u8>) -> AddressView {
    AddressView::Profile { owner }
}

/// The address of note `id` of `owner`, as a model value.
pub open spec fn note_addr(owner: Seq<u8>, id: u64) -> AddressView {
    AddressView::Note { owner, id }
}

/// Derives the storage address of `owner`'s profile record. Pure: equal
/// owners give equal addresses, distinct owners distinct ones.
pub fn profile_address(owner: &Identity) -> (a: Address)
    ensures
        a@ == profile_addr(owner@),
{
    Address::Profile { owner: *owner }
}

/// Derives the storage address of note `id` of `owner`. Pure in both inputs.
pub fn note_address(owner: &Identity, id: u64) -> (a: Address)
    ensures
        a@ == note_addr(owner@, id),
{
    Address::Note { owner: *owner, id }
}

/// Compares two addresses: same kind, same owner and, for notes, same number.
pub fn address_eq(a: &Address, b: &Address) -> (r: bool)
    ensures
        r == (a@ == b@),
{
    match (a, b) {
        (Address::Profile { owner: oa }, Address::Profile { owner: ob }) => identity_eq(oa, ob),
        (Address::Note { owner: oa, id: ia }, Address::Note { owner: ob, id: ib }) => {
            *ia == *ib && identity_eq(oa, ob)
        },
        _ => false,
    }
}

/// The little-endian fixed-width encoding of a 64-bit sequence number.
pub open spec fn le_bytes(x: u64) -> Seq<u8> {
    seq![
        (x & 0xff) as u8,
        ((x >> 8) & 0xff) as u8,
        ((x >> 16) & 0xff) as u8,
        ((x >> 24) & 0xff) as u8,
        ((x >> 32) & 0xff) as u8,
        ((x >> 40) & 0xff) as u8,
        ((x >> 48) & 0xff) as u8,
        ((x >> 56) & 0xff) as u8,
    ]
}

/// Encodes a sequence number as its eight little-endian bytes.
pub fn u64_le_bytes(x: u64) -> (r: Vec<u8>)
    ensures
        r@ == le_bytes(x),
{
    let mut r: Vec<u8> = Vec::new();
    assert((x & 0xff) < 256 && ((x >> 8) & 0xff) < 256 && ((x >> 16) & 0xff) < 256 && ((x >> 24)
        & 0xff) < 256 && ((x >> 32) & 0xff) < 256 && ((x >> 40) & 0xff) < 256 && ((x >> 48) & 0xff)
        < 256 && ((x >> 56) & 0xff) < 256) by (bit_vector);
    r.push((x & 0xff) as u8);
    r.push(((x >> 8) & 0xff) as u8);
    r.push(((x >> 16) & 0xff) as u8);
    r.push(((x >> 24) & 0xff) as u8);
    r.push(((x >> 32) & 0xff) as u8);
    r.push(((x >> 40) & 0xff) as u8);
    r.push(((x >> 48) & 0xff) as u8);
    r.push(((x >> 56) & 0xff) as u8);
    assert(r@ =~= le_bytes(x));
    r
}

/// Two distinct numbers never share a little-endian encoding.
pub proof fn lemma_le_bytes_injective(x: u64, y: u64)
    requires
        le_bytes(x) == le_bytes(y),
    ensures
        x == y,
{
    assert(le_bytes(x)[0] == le_bytes(y)[0]);
    assert(le_bytes(x)[1] == le_bytes(y)[1]);
    assert(le_bytes(x)[2] == le_bytes(y)[2]);
    assert(le_bytes(x)[3] == le_bytes(y)[3]);
    assert(le_bytes(x)[4] == le_bytes(y)[4]);
    assert(le_bytes(x)[5] == le_bytes(y)[5]);
    assert(le_bytes(x)[6] == le_bytes(y)[6]);
    assert(le_bytes(x)[7] == le_bytes(y)[7]);
    assert(((x & 0xff) as u8 == (y & 0xff) as u8 && ((x >> 8) & 0xff) as u8 == ((y >> 8)
        & 0xff) as u8 && ((x >> 16) & 0xff) as u8 == ((y >> 16) & 0xff) as u8 && ((x >> 24)
        & 0xff) as u8 == ((y >> 24) & 0xff) as u8 && ((x >> 32) & 0xff) as u8 == ((y >> 32)
        & 0xff) as u8 && ((x >> 40) & 0xff) as u8 == ((y >> 40) & 0xff) as u8 && ((x >> 48)
        & 0xff) as u8 == ((y >> 48) & 0xff) as u8 && ((x >> 56) & 0xff) as u8 == ((y >> 56)
        & 0xff) as u8) ==> x == y) by (bit_vector);
}

/// The domain tag that opens a profile record's seed.
pub open spec fn profile_tag() -> Seq<u8> {
    seq![117u8, 115u8, 101u8, 114u8, 95u8, 112u8, 114u8, 111u8, 102u8, 105u8, 108u8, 101u8]
}

/// The domain tag that opens a note record's seed.
pub open spec fn note_tag() -> Seq<u8> {
    seq![110u8, 111u8, 116u8, 101u8]
}

/// The bytes of the profile domain tag, `user_profile` in ASCII.
pub fn profile_tag_bytes() -> (r: Vec<u8>)
    ensures
        r@ == profile_tag(),
{
    let r: Vec<u8> = vec![117u8, 115u8, 101u8, 114u8, 95u8, 112u8, 114u8, 111u8, 102u8, 105u8, 108u8, 101u8];
    assert(r@ =~= profile_tag());
    r
}

/// The bytes of the note domain tag, `note` in ASCII.
pub fn note_tag_bytes() -> (r: Vec<u8>)
    ensures
        r@ == note_tag(),
{
    let r: Vec<u8> = vec![110u8, 111u8, 116u8, 101u8];
    assert(r@ =~= note_tag());
    r
}

/// An address model is well formed when its owner is a full-width identity.
pub open spec fn addr_wf(a: AddressView) -> bool {
    match a {
        AddressView::Profile { owner } => owner.len() == 32,
        AddressView::Note { owner, id } => owner.len() == 32,
    }
}

/// The canonical seed of a record address: domain tag, then the owner's raw
/// identity bytes, then (for a note) the sequence number's little-endian
/// bytes.
pub open spec fn seed_view(a: AddressView) -> Seq<u8> {
    match a {
        AddressView::Profile { owner } => profile_tag() + owner,
        AddressView::Note { owner, id } => note_tag() + owner + le_bytes(id),
    }
}

/// Appends the owner's raw identity bytes to a seed under construction.
fn append_identity(r: &mut Vec<u8>, owner: &Identity)
    ensures
        final(r)@ == old(r)@ + owner@,
{
    let mut i: usize = 0;
    while i < 32
        invariant
            i <= 32,
            r@ == old(r)@ + owner@.subrange(0, i as int),
        decreases 32 - i,
    {
        r.push(owner.bytes[i]);
        assert(old(r)@ + owner@.subrange(0, i as int) + seq![owner@[i as int]] =~= old(r)@
            + owner@.subrange(0, i + 1));
        i += 1;
    }
    assert(owner@.subrange(0, 32) =~= owner@);
}

/// Builds the canonical seed bytes of an address.
pub fn address_seed(a: &Address) -> (r: Vec<u8>)
    ensures
        r@ == seed_view(a@),
{
    match a {
        Address::Profile { owner } => {
            let mut r = profile_tag_bytes();
            append_identity(&mut r, owner);
            r
        },
        Address::Note { owner, id } => {
            let mut r = note_tag_bytes();
            append_identity(&mut r, owner);
            let mut tail = u64_le_bytes(*id);
            r.append(&mut tail);
            r
        },
    }
}

/// What the store's canonical derivation function yields for a seed and a
/// program identifier: the 32-byte location and the bump that made it valid,
/// or nothing in the statistically negligible case that no bump works. The
/// result depends on the seed bytes and the program alone.
pub uninterp spec fn location_of(seed: Seq<u8>, program: Seq<u8>) -> Option<(Seq<u8>, u8)>;

/// Relies on `Pubkey::try_find_program_address` of `anchor_lang`: for seed
/// slices each at most 32 bytes long, the result is a deterministic function
/// of the concatenated seed bytes and the program identifier (the derivation
/// hashes exactly that concatenation, then searches bumps from 255 down).
#[verifier::external_body]
fn find_program_location(s1: &[u8], s2: &[u8], s3: &[u8], program: &[u8; 32]) -> (r: Option<
    ([u8; 32], u8),
>)
    requires
        s1@.len() <= 32,
        s2@.len() <= 32,
        s3@.len() <= 32,
    ensures
        (match r {
            Some(p) => location_of(s1@ + s2@ + s3@, program@) == Some((p.0@, p.1)),
            None => location_of(s1@ + s2@ + s3@, program@) is None,
        }),
{
    let pid = anchor_lang::prelude::Pubkey::new_from_array(*program);
    match anchor_lang::prelude::Pubkey::try_find_program_address(&[s1, s2, s3], &pid) {
        Some((key, bump)) => Some((key.to_bytes(), bump)),
        None => None,
    }
}

/// Derives the external store's 32-byte location for a record address under
/// the given program identifier, by handing the address's canonical seed to
/// the store's derivation function.
pub fn record_location(a: &Address, program: &[u8; 32]) -> (r: Option<([u8; 32], u8)>)
    ensures
        (match r {
            Some(p) => location_of(seed_view(a@), program@) == Some((p.0@, p.1)),
            None => location_of(seed_view(a@), program@) is None,
        }),
{
    match a {
        Address::Profile { owner } => {
            let tag = profile_tag_bytes();
            let empty: Vec<u8> = Vec::new();
            assert(tag@ + owner@ + empty@ =~= seed_view(a@));
            find_program_location(tag.as_slice(), owner.bytes.as_slice(), empty.as_slice(), program)
        },
        Address::Note { owner, id } => {
            let tag = note_tag_bytes();
            let tail = u64_le_bytes(*id);
            assert(tag@ + owner@ + tail@ =~= seed_view(a@));
            find_program_location(tag.as_slice(), owner.bytes.as_slice(), tail.as_slice(), program)
        },
    }
}

/// Record addresses never collide: distinct owners get distinct profile
/// addresses, a note address never equals a profile address, and two note
/// addresses agree only when both the owner and the sequence number agree.
pub proof fn lemma_address_non_collision(o1: Seq<u8>, o2: Seq<u8>, id1: u64, id2: u64)
    ensures
        o1 != o2 ==> profile_addr(o1) != profile_addr(o2),
        profile_addr(o1) != note_addr(o2, id2),
        o1 != o2 || id1 != id2 ==> note_addr(o1, id1) != note_addr(o2, id2),
{
}

/// No two distinct record addresses share a canonical seed: the domain tags
/// tell the kinds apart, and within a kind the owner bytes and the sequence
/// number's bytes sit at fixed offsets.
pub proof fn lemma_seed_injective(a: AddressView, b: AddressView)
    requires
        addr_wf(a),
        addr_wf(b),
        seed_view(a) == seed_view(b),
    ensures
        a == b,
{
    let sa = seed_view(a);
    let sb = seed_view(b);
    match (a, b) {
        (AddressView::Profile { owner: oa }, AddressView::Profile { owner: ob }) => {
            assert forall|i: int| 0 <= i < 32 implies oa[i] == ob[i] by {
                assert(sa[12 + i] == oa[i]);
                assert(sb[12 + i] == ob[i]);
            }
            assert(oa =~= ob);
        },
        (AddressView::Note { owner: oa, id: ia }, AddressView::Note { owner: ob, id: ib }) => {
            assert forall|i: int| 0 <= i < 32 implies oa[i] == ob[i] by {
                assert(sa[4 + i] == oa[i]);
                assert(sb[4 + i] == ob[i]);
            }
            assert(oa =~= ob);
            assert forall|i: int| 0 <= i < 8 implies le_bytes(ia)[i] == le_bytes(ib)[i] by {
                assert(sa[36 + i] == le_bytes(ia)[i]);
                assert(sb[36 + i] == le_bytes(ib)[i]);
            }
            assert(le_bytes(ia) =~= le_bytes(ib));
            lemma_le_bytes_injective(ia, ib);
        },
        (AddressView::Profile { owner: oa }, AddressView::Note { owner: ob, id: ib }) => {
            assert(sa[0] == 117u8);
            assert(sb[0] == 110u8);
        },
        (AddressView::Note { owner: oa, id: ia }, AddressView::Profile { owner: ob }) => {
            assert(sa[0] == 110u8);
            assert(sb[0] == 117u8);
        },
    }
}

} // verus!
