//! The record lifecycle manager: register a user, create, update and delete
//! notes, each a single atomic transaction against the store. Every
//! operation first derives the record addresses it touches, then checks
//! allocation, authorization and input bounds, and either applies its whole
//! effect or leaves the store unchanged.

use vstd::prelude::*;
use crate::addressing::{AddressView, Identity, identity_eq, note_addr, note_address, profile_addr,
    profile_address};
use crate::records::{MAX_CONTENT_LEN, MAX_TITLE_LEN, MAX_USERNAME_LEN, Note, NoteView, ProfileView,
    Record, RecordView, UserProfile};
use crate::store::Store;

verus! {

/// Why an operation aborted. Every error leaves the store untouched.
#[derive(Clone, Copy, PartialEq, Eq, Debug)]
pub enum ErrorCode {
    /// A text input exceeds its size bound.
    InvalidInput,
    /// A profile already sits at the caller's profile address.
    DuplicateRegistration,
    /// No profile sits at the caller's profile address.
    ProfileNotFound,
    /// No note sits at the derived note address.
    NoteNotFound,
    /// The record's stored authority is not the caller.
    UnauthorizedAccess,
    /// A record already sits at an address about to be allocated.
    AllocationCollision,
}

/// The profile stored at `owner`'s profile address, if that address holds one.
pub open spec fn profile_at(m: Map<AddressView, RecordView>, owner: Seq<u8>) -> Option<
    ProfileView,
> {
    if m.contains_key(profile_addr(owner)) {
        match m[profile_addr(owner)] {
            RecordView::Profile(p) => Some(p),
            RecordView::Note(_) => None,
        }
    } else {
        None
    }
}

/// The note stored at note address (`owner`, `id`), if that address holds one.
pub open spec fn note_at(m: Map<AddressView, RecordView>, owner: Seq<u8>, id: u64) -> Option<
    NoteView,
> {
    if m.contains_key(note_addr(owner, id)) {
        match m[note_addr(owner, id)] {
            RecordView::Note(n) => Some(n),
            RecordView::Profile(_) => None,
        }
    } else {
        None
    }
}

/// What registering returns: the allocation-collision check first, then the
/// input bound.
pub open spec fn register_result(
    m: Map<AddressView, RecordView>,
    caller: Seq<u8>,
    username: Seq<char>,
) -> Result<(), ErrorCode> {
    if m.contains_key(profile_addr(caller)) {
        Err(ErrorCode::DuplicateRegistration)
    } else if username.len() > MAX_USERNAME_LEN {
        Err(ErrorCode::InvalidInput)
    } else {
        Ok(())
    }
}

/// The store after registering: on success a fresh profile with a zero note
/// counter at the caller's profile address, otherwise unchanged.
pub open spec fn register_post(
    m: Map<AddressView, RecordView>,
    caller: Seq<u8>,
    username: Seq<char>,
) -> Map<AddressView, RecordView> {
    if register_result(m, caller, username) is Ok {
        m.insert(
            profile_addr(caller),
            RecordView::Profile(ProfileView { authority: caller, username, note_count: 0u64 }),
        )
    } else {
        m
    }
}

/// Registers a user profile for the caller.
pub fn create_user(store: &mut Store, caller: &Identity, username: String) -> (r: Result<
    (),
    ErrorCode,
>)
    requires
        old(store).wf(),
    ensures
        final(store).wf(),
        r == register_result(old(store)@, caller@, username@),
        final(store)@ == register_post(old(store)@, caller@, username@),
{
    let pa = profile_address(caller);
    if store.get(&pa).is_some() {
        return Err(ErrorCode::DuplicateRegistration);
    }
    if username.as_str().unicode_len() > MAX_USERNAME_LEN {
        return Err(ErrorCode::InvalidInput);
    }
    store.put_new(
        pa,
        Record::Profile(UserProfile { authority: *caller, username, note_count: 0 }),
    );
    Ok(())
}

/// What creating a note returns: the profile must exist, the inputs must fit
/// their bounds, and the derived note address must be free; on success, the
/// assigned 1-based sequence number.
pub open spec fn create_result(
    m: Map<AddressView, RecordView>,
    caller: Seq<u8>,
    title: Seq<char>,
    content: Seq<char>,
) -> Result<u64, ErrorCode> {
    match profile_at(m, caller) {
        Option::None => Err(ErrorCode::ProfileNotFound),
        Option::Some(p) => if title.len() > MAX_TITLE_LEN || content.len() > MAX_CONTENT_LEN {
            Err(ErrorCode::InvalidInput)
        } else if m.contains_key(note_addr(caller, (p.note_count + 1) as u64)) {
            Err(ErrorCode::AllocationCollision)
        } else {
            Ok((p.note_count + 1) as u64)
        },
    }
}

/// The store after creating a note: on success the new note sits at its
/// derived address and the profile's counter equals the new sequence number,
/// both in one transaction; otherwise unchanged.
pub open spec fn create_post(
    m: Map<AddressView, RecordView>,
    caller: Seq<u8>,
    title: Seq<char>,
    content: Seq<char>,
) -> Map<AddressView, RecordView> {
    match profile_at(m, caller) {
        Option::Some(p) => if create_result(m, caller, title, content) is Ok {
            let id = (p.note_count + 1) as u64;
            m.insert(
                note_addr(caller, id),
                RecordView::Note(NoteView { authority: caller, id, title, content }),
            ).insert(
                profile_addr(caller),
                RecordView::Profile(
                    ProfileView {
                        authority: p.authority,
                        username: p.username,
                        note_count: id,
                    },
                ),
            )
        } else {
            m
        },
        Option::None => m,
    }
}

/// Creates a note owned by the caller, assigning the next sequence number
/// from the caller's profile.
pub fn create_note(store: &mut Store, caller: &Identity, title: String, content: String) -> (r:
    Result<u64, ErrorCode>)
    requires
        old(store).wf(),
        (match profile_at(old(store)@, caller@) {
            Option::Some(p) => p.note_count < u64::MAX,
            Option::None => true,
        }),
    ensures
        final(store).wf(),
        r == create_result(old(store)@, caller@, title@, content@),
        final(store)@ == create_post(old(store)@, caller@, title@, content@),
{
    let pa = profile_address(caller);
    let (authority, username, count) = match store.get(&pa) {
        Option::Some(rec) => match rec {
            Record::Profile(p) => (p.authority, p.username.clone(), p.note_count),
            Record::Note(_) => {
                return Err(ErrorCode::ProfileNotFound);
            },
        },
        Option::None => {
            return Err(ErrorCode::ProfileNotFound);
        },
    };
    if title.as_str().unicode_len() > MAX_TITLE_LEN || content.as_str().unicode_len()
        > MAX_CONTENT_LEN {
        return Err(ErrorCode::InvalidInput);
    }
    let new_id = count + 1;
    let na = note_address(caller, new_id);
    if store.get(&na).is_some() {
        return Err(ErrorCode::AllocationCollision);
    }
    store.put_new(
        na,
        Record::Note(Note { authority: *caller, id: new_id, title, content }),
    );
    store.set_existing(
        &pa,
        Record::Profile(UserProfile { authority, username, note_count: new_id }),
    );
    Ok(new_id)
}

/// What updating a note returns: the note must exist at the address derived
/// from the caller and the number, its stored authority must be the caller,
/// and the new content must fit its bound.
pub open spec fn update_result(
    m: Map<AddressView, RecordView>,
    caller: Seq<u8>,
    id: u64,
    content: Seq<char>,
) -> Result<(), ErrorCode> {
    match note_at(m, caller, id) {
        Option::None => Err(ErrorCode::NoteNotFound),
        Option::Some(n) => if n.authority != caller {
            Err(ErrorCode::UnauthorizedAccess)
        } else if content.len() > MAX_CONTENT_LEN {
            Err(ErrorCode::InvalidInput)
        } else {
            Ok(())
        },
    }
}

/// The store after updating a note: on success only the note's content
/// changes, in place; authority, number and title stay; otherwise unchanged.
pub open spec fn update_post(
    m: Map<AddressView, RecordView>,
    caller: Seq<u8>,
    id: u64,
    content: Seq<char>,
) -> Map<AddressView, RecordView> {
    match note_at(m, caller, id) {
        Option::Some(n) => if update_result(m, caller, id, content) is Ok {
            m.insert(
                note_addr(caller, id),
                RecordView::Note(
                    NoteView { authority: n.authority, id: n.id, title: n.title, content },
                ),
            )
        } else {
            m
        },
        Option::None => m,
    }
}

/// Overwrites the content of the caller's note `id`.
pub fn update_note(store: &mut Store, caller: &Identity, id: u64, new_content: String) -> (r:
    Result<(), ErrorCode>)
    requires
        old(store).wf(),
    ensures
        final(store).wf(),
        r == update_result(old(store)@, caller@, id, new_content@),
        final(store)@ == update_post(old(store)@, caller@, id, new_content@),
{
    let na = note_address(caller, id);
    let (authority, note_id, title) = match store.get(&na) {
        Option::Some(rec) => match rec {
            Record::Note(n) => (n.authority, n.id, n.title.clone()),
            Record::Profile(_) => {
                return Err(ErrorCode::NoteNotFound);
            },
        },
        Option::None => {
            return Err(ErrorCode::NoteNotFound);
        },
    };
    if !identity_eq(&authority, caller) {
        return Err(ErrorCode::UnauthorizedAccess);
    }
    if new_content.as_str().unicode_len() > MAX_CONTENT_LEN {
        return Err(ErrorCode::InvalidInput);
    }
    store.set_existing(
        &na,
        Record::Note(Note { authority, id: note_id, title, content: new_content }),
    );
    Ok(())
}

/// What deleting a note returns: the note must exist at the address derived
/// from the caller and the number, and its stored authority must be the
/// caller.
pub open spec fn delete_result(m: Map<AddressView, RecordView>, caller: Seq<u8>, id: u64) -> Result<
    (),
    ErrorCode,
> {
    match note_at(m, caller, id) {
        Option::None => Err(ErrorCode::NoteNotFound),
        Option::Some(n) => if n.authority != caller {
            Err(ErrorCode::UnauthorizedAccess)
        } else {
            Ok(())
        },
    }
}

/// The store after deleting a note: on success the record is gone from its
/// address and its storage is reclaimed; otherwise unchanged.
pub open spec fn delete_post(m: Map<AddressView, RecordView>, caller: Seq<u8>, id: u64) -> Map<
    AddressView,
    RecordView,
> {
    if delete_result(m, caller, id) is Ok {
        m.remove(note_addr(caller, id))
    } else {
        m
    }
}

/// Deletes the caller's note `id`, deallocating its record.
pub fn delete_note(store: &mut Store, caller: &Identity, id: u64) -> (r: Result<(), ErrorCode>)
    requires
        old(store).wf(),
    ensures
        final(store).wf(),
        r == delete_result(old(store)@, caller@, id),
        final(store)@ == delete_post(old(store)@, caller@, id),
{
    let na = note_address(caller, id);
    let owner_ok: bool = match store.get(&na) {
        Option::Some(rec) => match rec {
            Record::Note(n) => identity_eq(&n.authority, caller),
            Record::Profile(_) => {
                return Err(ErrorCode::NoteNotFound);
            },
        },
        Option::None => {
            return Err(ErrorCode::NoteNotFound);
        },
    };
    if !owner_ok {
        return Err(ErrorCode::UnauthorizedAccess);
    }
    let _ = store.take_out(&na);
    Ok(())
}

/// Registering and then looking the profile up at the owner's profile address
/// finds a fresh profile: the caller as authority, the given username, and a
/// note counter of zero.
pub proof fn lemma_register_then_lookup(
    m: Map<AddressView, RecordView>,
    caller: Seq<u8>,
    username: Seq<char>,
)
    requires
        username.len() <= MAX_USERNAME_LEN,
        !m.contains_key(profile_addr(caller)),
    ensures
        register_result(m, caller, username) == Ok::<(), ErrorCode>(()),
        profile_at(register_post(m, caller, username), caller) == Some(
            ProfileView { authority: caller, username, note_count: 0u64 },
        ),
{
}

/// Registering the same identity twice fails the second time with a duplicate
/// registration, and the first profile stands unchanged.
pub proof fn lemma_register_twice_fails(
    m: Map<AddressView, RecordView>,
    caller: Seq<u8>,
    first_name: Seq<char>,
    second_name: Seq<char>,
)
    requires
        first_name.len() <= MAX_USERNAME_LEN,
        !m.contains_key(profile_addr(caller)),
    ensures
        ({
            let m1 = register_post(m, caller, first_name);
            register_result(m1, caller, second_name) == Err::<(), ErrorCode>(
                ErrorCode::DuplicateRegistration,
            ) && register_post(m1, caller, second_name) == m1 && profile_at(m1, caller) == Some(
                ProfileView { authority: caller, username: first_name, note_count: 0u64 },
            )
        }),
{
}

/// An update attempt on an existing note whose stored authority is not the
/// caller fails as unauthorized and leaves the store, and so the note's
/// content, unchanged.
pub proof fn lemma_update_unauthorized(
    m: Map<AddressView, RecordView>,
    caller: Seq<u8>,
    id: u64,
    stored: NoteView,
    content: Seq<char>,
)
    requires
        note_at(m, caller, id) == Some(stored),
        stored.authority != caller,
    ensures
        update_result(m, caller, id, content) == Err::<(), ErrorCode>(
            ErrorCode::UnauthorizedAccess,
        ),
        update_post(m, caller, id, content) == m,
{
}

/// After a note is deleted, an update of the same (identity, number) pair
/// fails because the note is gone.
pub proof fn lemma_delete_then_update_fails(
    m: Map<AddressView, RecordView>,
    caller: Seq<u8>,
    id: u64,
    stored: NoteView,
    content: Seq<char>,
)
    requires
        note_at(m, caller, id) == Some(stored),
        stored.authority == caller,
    ensures
        delete_result(m, caller, id) == Ok::<(), ErrorCode>(()),
        update_result(delete_post(m, caller, id), caller, id, content) == Err::<(), ErrorCode>(
            ErrorCode::NoteNotFound,
        ),
{
}

/// The store after a run of note creations from one caller, first to last.
pub open spec fn create_seq_post(
    m: Map<AddressView, RecordView>,
    caller: Seq<u8>,
    items: Seq<(Seq<char>, Seq<char>)>,
) -> Map<AddressView, RecordView>
    decreases items.len(),
{
    if items.len() == 0 {
        m
    } else {
        create_seq_post(create_post(m, caller, items[0].0, items[0].1), caller, items.drop_first())
    }
}

/// Whether every creation in a run succeeds.
pub open spec fn create_seq_ok(
    m: Map<AddressView, RecordView>,
    caller: Seq<u8>,
    items: Seq<(Seq<char>, Seq<char>)>,
) -> bool
    decreases items.len(),
{
    items.len() == 0 || (create_result(m, caller, items[0].0, items[0].1) is Ok && create_seq_ok(
        create_post(m, caller, items[0].0, items[0].1),
        caller,
        items.drop_first(),
    ))
}

/// The addresses a run of creations may write: the caller's profile and the
/// note addresses of the assigned numbers.
pub open spec fn create_seq_touches(
    caller: Seq<u8>,
    count_before: u64,
    n: int,
    k: AddressView,
) -> bool {
    k == profile_addr(caller) || (exists|i: u64|
        count_before < i <= count_before + n && k == #[trigger] note_addr(caller, i))
}

/// Sequential creations from one registered identity all succeed and number
/// the new notes consecutively: starting from a profile whose counter is c,
/// the j-th creation yields the note with sequence number c + j, each note
/// stores the caller as authority and its own title and content, the
/// profile's counter ends at c plus the number of creations, and no other
/// record moves.
pub proof fn lemma_sequential_creates(
    m: Map<AddressView, RecordView>,
    caller: Seq<u8>,
    p: ProfileView,
    items: Seq<(Seq<char>, Seq<char>)>,
)
    requires
        profile_at(m, caller) == Some(p),
        p.note_count + items.len() <= u64::MAX,
        forall|j: int|
            0 <= j < items.len() ==> ((#[trigger] items[j]).0.len() <= MAX_TITLE_LEN
                && items[j].1.len() <= MAX_CONTENT_LEN),
        forall|k: u64|
            p.note_count < k <= p.note_count + items.len() ==> !m.contains_key(
                #[trigger] note_addr(caller, k),
            ),
    ensures
        create_seq_ok(m, caller, items),
        profile_at(create_seq_post(m, caller, items), caller) == Some(
            ProfileView {
                authority: p.authority,
                username: p.username,
                note_count: (p.note_count + items.len()) as u64,
            },
        ),
        forall|k: u64|
            p.note_count < k <= p.note_count + items.len() ==> note_at(
                create_seq_post(m, caller, items),
                caller,
                k,
            ) == Some(
                NoteView {
                    authority: caller,
                    id: k,
                    title: items[k - p.note_count - 1].0,
                    content: items[k - p.note_count - 1].1,
                },
            ),
        forall|k: AddressView|
            !(#[trigger] create_seq_touches(caller, p.note_count, items.len() as int, k)) ==> (
            create_seq_post(m, caller, items).contains_key(k) == m.contains_key(k) && (
            m.contains_key(k) ==> create_seq_post(m, caller, items)[k] == m[k])),
    decreases items.len(),
{
    if items.len() == 0 {
    } else {
        let title = items[0].0;
        let content = items[0].1;
        let id1 = (p.note_count + 1) as u64;
        assert(!m.contains_key(note_addr(caller, id1)));
        assert(create_result(m, caller, title, content) == Ok::<u64, ErrorCode>(id1));
        let m1 = create_post(m, caller, title, content);
        let p1 = ProfileView { authority: p.authority, username: p.username, note_count: id1 };
        assert(profile_at(m1, caller) == Some(p1));
        let rest = items.drop_first();
        assert forall|k: u64|
            p1.note_count < k <= p1.note_count + rest.len() implies !m1.contains_key(
            #[trigger] note_addr(caller, k),
        ) by {
            assert(!m.contains_key(note_addr(caller, k)));
            assert(note_addr(caller, k) != note_addr(caller, id1));
            assert(note_addr(caller, k) != profile_addr(caller));
        }
        lemma_sequential_creates(m1, caller, p1, rest);
        let mf = create_seq_post(m1, caller, rest);
        assert(create_seq_post(m, caller, items) == mf);
        assert(create_seq_ok(m, caller, items));
        assert((p1.note_count + rest.len()) as u64 == (p.note_count + items.len()) as u64);
        assert forall|k: u64|
            p.note_count < k <= p.note_count + items.len() implies note_at(mf, caller, k) == Some(
            NoteView {
                authority: caller,
                id: k,
                title: items[k - p.note_count - 1].0,
                content: items[k - p.note_count - 1].1,
            },
        ) by {
            if k == id1 {
                assert(!create_seq_touches(caller, p1.note_count, rest.len() as int, note_addr(
                    caller,
                    id1,
                )));
                assert(note_at(m1, caller, id1) == Some(
                    NoteView { authority: caller, id: id1, title, content },
                ));
                assert(note_at(mf, caller, id1) == note_at(m1, caller, id1));
            } else {
                assert(note_at(mf, caller, k) == Some(
                    NoteView {
                        authority: caller,
                        id: k,
                        title: rest[k - p1.note_count - 1].0,
                        content: rest[k - p1.note_count - 1].1,
                    },
                ));
                assert(rest[k - p1.note_count - 1] == items[k - p.note_count - 1]);
            }
        }
        assert forall|k: AddressView|
            !(#[trigger] create_seq_touches(caller, p.note_count, items.len() as int, k)) implies (
        create_seq_post(m, caller, items).contains_key(k) == m.contains_key(k) && (m.contains_key(
            k,
        ) ==> create_seq_post(m, caller, items)[k] == m[k])) by {
            assert(create_seq_post(m, caller, items) == mf);
            assert(k != profile_addr(caller));
            assert(forall|i: u64|
                p.note_count < i <= p.note_count + items.len() ==> k != #[trigger] note_addr(
                    caller,
                    i,
                ));
            assert(k != note_addr(caller, id1));
            if create_seq_touches(caller, p1.note_count, rest.len() as int, k) {
                let i = choose|i: u64|
                    p1.note_count < i <= p1.note_count + rest.len() && k == #[trigger] note_addr(
                        caller,
                        i,
                    );
                assert(p.note_count < i <= p.note_count + items.len());
                assert(false);
            }
            assert(!create_seq_touches(caller, p1.note_count, rest.len() as int, k));
            assert(m1.contains_key(k) == m.contains_key(k));
            assert(mf.contains_key(k) == m1.contains_key(k));
            if m.contains_key(k) {
                assert(m1[k] == m[k]);
                assert(mf[k] == m1[k]);
            }
        }
    }
}

} // verus!
