use note_app::addressing::{note_address, profile_address, Identity};
use note_app::lifecycle::{create_note, create_user, delete_note, update_note, ErrorCode};
use note_app::records::{Note, Record, UserProfile};
use note_app::store::Store;

fn ident(tag: u8) -> Identity {
    Identity { bytes: [tag; 32] }
}

fn get_profile(store: &Store, owner: &Identity) -> Option<(Identity, String, u64)> {
    match store.get(&profile_address(owner)) {
        Some(Record::Profile(p)) => Some((p.authority, p.username.clone(), p.note_count)),
        _ => None,
    }
}

fn get_note(store: &Store, owner: &Identity, id: u64) -> Option<(Identity, u64, String, String)> {
    match store.get(&note_address(owner, id)) {
        Some(Record::Note(n)) => Some((n.authority, n.id, n.title.clone(), n.content.clone())),
        _ => None,
    }
}

#[test]
fn register_then_lookup_fresh_profile() {
    let mut store = Store::new();
    let alice = ident(1);
    assert_eq!(create_user(&mut store, &alice, String::from("alice")), Ok(()));
    let (authority, username, note_count) = get_profile(&store, &alice).unwrap();
    assert_eq!(authority.bytes, alice.bytes);
    assert_eq!(username, "alice");
    assert_eq!(note_count, 0);
}

#[test]
fn register_twice_fails_and_keeps_first_profile() {
    let mut store = Store::new();
    let alice = ident(1);
    assert_eq!(create_user(&mut store, &alice, String::from("alice")), Ok(()));
    assert_eq!(
        create_user(&mut store, &alice, String::from("impostor")),
        Err(ErrorCode::DuplicateRegistration)
    );
    let (_, username, note_count) = get_profile(&store, &alice).unwrap();
    assert_eq!(username, "alice");
    assert_eq!(note_count, 0);
}

#[test]
fn register_rejects_long_username() {
    let mut store = Store::new();
    let alice = ident(1);
    let long = "x".repeat(51);
    assert_eq!(create_user(&mut store, &alice, long), Err(ErrorCode::InvalidInput));
    assert!(get_profile(&store, &alice).is_none());
    assert_eq!(create_user(&mut store, &alice, "y".repeat(50)), Ok(()));
}

#[test]
fn sequential_creates_number_notes_consecutively() {
    let mut store = Store::new();
    let alice = ident(1);
    assert_eq!(create_user(&mut store, &alice, String::from("alice")), Ok(()));
    for k in 1u64..=5 {
        let r = create_note(&mut store, &alice, format!("title {}", k), format!("body {}", k));
        assert_eq!(r, Ok(k));
    }
    let (_, _, note_count) = get_profile(&store, &alice).unwrap();
    assert_eq!(note_count, 5);
    for k in 1u64..=5 {
        let (authority, id, title, content) = get_note(&store, &alice, k).unwrap();
        assert_eq!(authority.bytes, alice.bytes);
        assert_eq!(id, k);
        assert_eq!(title, format!("title {}", k));
        assert_eq!(content, format!("body {}", k));
    }
}

#[test]
fn create_note_without_profile_fails() {
    let mut store = Store::new();
    let alice = ident(1);
    assert_eq!(
        create_note(&mut store, &alice, String::from("t"), String::from("c")),
        Err(ErrorCode::ProfileNotFound)
    );
    assert!(get_note(&store, &alice, 1).is_none());
}

#[test]
fn create_note_rejects_long_title_and_content() {
    let mut store = Store::new();
    let alice = ident(1);
    assert_eq!(create_user(&mut store, &alice, String::from("alice")), Ok(()));
    assert_eq!(
        create_note(&mut store, &alice, "t".repeat(101), String::from("c")),
        Err(ErrorCode::InvalidInput)
    );
    assert_eq!(
        create_note(&mut store, &alice, String::from("t"), "c".repeat(501)),
        Err(ErrorCode::InvalidInput)
    );
    assert!(get_note(&store, &alice, 1).is_none());
    let (_, _, note_count) = get_profile(&store, &alice).unwrap();
    assert_eq!(note_count, 0);
    assert_eq!(create_note(&mut store, &alice, "t".repeat(100), "c".repeat(500)), Ok(1));
}

#[test]
fn create_note_reports_allocation_collision() {
    let mut store = Store::new();
    let alice = ident(1);
    assert_eq!(create_user(&mut store, &alice, String::from("alice")), Ok(()));
    store.put_new(
        note_address(&alice, 1),
        Record::Note(Note {
            authority: alice,
            id: 1,
            title: String::from("squatter"),
            content: String::from("occupied"),
        }),
    );
    assert_eq!(
        create_note(&mut store, &alice, String::from("t"), String::from("c")),
        Err(ErrorCode::AllocationCollision)
    );
    let (_, _, note_count) = get_profile(&store, &alice).unwrap();
    assert_eq!(note_count, 0);
}

#[test]
fn update_by_non_owner_is_unauthorized_and_changes_nothing() {
    let mut store = Store::new();
    let alice = ident(1);
    let mallory = ident(2);
    // A note sitting at an address derived from mallory but owned by alice:
    // exactly what the explicit stored-authority check guards against.
    store.put_new(
        note_address(&mallory, 1),
        Record::Note(Note {
            authority: alice,
            id: 1,
            title: String::from("t"),
            content: String::from("original"),
        }),
    );
    assert_eq!(
        update_note(&mut store, &mallory, 1, String::from("hijacked")),
        Err(ErrorCode::UnauthorizedAccess)
    );
    let (_, _, _, content) = get_note(&store, &mallory, 1).unwrap();
    assert_eq!(content, "original");
}

#[test]
fn delete_by_non_owner_is_unauthorized() {
    let mut store = Store::new();
    let alice = ident(1);
    let mallory = ident(2);
    store.put_new(
        note_address(&mallory, 1),
        Record::Note(Note {
            authority: alice,
            id: 1,
            title: String::from("t"),
            content: String::from("c"),
        }),
    );
    assert_eq!(delete_note(&mut store, &mallory, 1), Err(ErrorCode::UnauthorizedAccess));
    assert!(get_note(&store, &mallory, 1).is_some());
}

#[test]
fn delete_then_update_reports_note_not_found() {
    let mut store = Store::new();
    let alice = ident(1);
    assert_eq!(create_user(&mut store, &alice, String::from("alice")), Ok(()));
    assert_eq!(create_note(&mut store, &alice, String::from("t"), String::from("c")), Ok(1));
    assert_eq!(delete_note(&mut store, &alice, 1), Ok(()));
    assert_eq!(
        update_note(&mut store, &alice, 1, String::from("after")),
        Err(ErrorCode::NoteNotFound)
    );
    assert_eq!(delete_note(&mut store, &alice, 1), Err(ErrorCode::NoteNotFound));
}

#[test]
fn update_rejects_long_content() {
    let mut store = Store::new();
    let alice = ident(1);
    assert_eq!(create_user(&mut store, &alice, String::from("alice")), Ok(()));
    assert_eq!(create_note(&mut store, &alice, String::from("t"), String::from("c")), Ok(1));
    assert_eq!(
        update_note(&mut store, &alice, 1, "c".repeat(501)),
        Err(ErrorCode::InvalidInput)
    );
    let (_, _, _, content) = get_note(&store, &alice, 1).unwrap();
    assert_eq!(content, "c");
}

#[test]
fn full_scenario_register_create_update_delete() {
    let mut store = Store::new();
    let alice = ident(7);
    assert_eq!(create_user(&mut store, &alice, String::from("alice")), Ok(()));
    assert_eq!(create_note(&mut store, &alice, String::from("t1"), String::from("c1")), Ok(1));
    assert_eq!(create_note(&mut store, &alice, String::from("t2"), String::from("c2")), Ok(2));
    assert_eq!(update_note(&mut store, &alice, 2, String::from("c2-edited")), Ok(()));
    let (_, id2, title2, content2) = get_note(&store, &alice, 2).unwrap();
    assert_eq!((id2, title2.as_str(), content2.as_str()), (2, "t2", "c2-edited"));
    let (_, id1, title1, content1) = get_note(&store, &alice, 1).unwrap();
    assert_eq!((id1, title1.as_str(), content1.as_str()), (1, "t1", "c1"));
    assert_eq!(delete_note(&mut store, &alice, 1), Ok(()));
    assert!(get_note(&store, &alice, 1).is_none());
    assert_eq!(update_note(&mut store, &alice, 1, String::from("x")), Err(ErrorCode::NoteNotFound));
    let (_, _, note_count) = get_profile(&store, &alice).unwrap();
    assert_eq!(note_count, 2);
}

#[test]
fn operations_of_different_owners_do_not_conflict() {
    let mut store = Store::new();
    let alice = ident(1);
    let bob = ident(2);
    assert_eq!(create_user(&mut store, &alice, String::from("alice")), Ok(()));
    assert_eq!(create_user(&mut store, &bob, String::from("bob")), Ok(()));
    assert_eq!(create_note(&mut store, &alice, String::from("a1"), String::from("ca")), Ok(1));
    assert_eq!(create_note(&mut store, &bob, String::from("b1"), String::from("cb")), Ok(1));
    assert_eq!(delete_note(&mut store, &alice, 1), Ok(()));
    let (_, _, title, content) = get_note(&store, &bob, 1).unwrap();
    assert_eq!((title.as_str(), content.as_str()), ("b1", "cb"));
}

#[test]
fn profile_record_fields_round_trip() {
    let profile = UserProfile {
        authority: ident(3),
        username: String::from("carol"),
        note_count: 4,
    };
    let record = Record::Profile(profile);
    match record {
        Record::Profile(p) => {
            assert_eq!(p.authority.bytes, [3u8; 32]);
            assert_eq!(p.username, "carol");
            assert_eq!(p.note_count, 4);
        }
        Record::Note(_) => panic!("wrong record kind"),
    }
}

#[test]
fn deleted_note_numbers_are_never_reused() {
    let mut store = Store::new();
    let alice = ident(1);
    assert_eq!(create_user(&mut store, &alice, String::from("alice")), Ok(()));
    assert_eq!(create_note(&mut store, &alice, String::from("t1"), String::from("c1")), Ok(1));
    assert_eq!(create_note(&mut store, &alice, String::from("t2"), String::from("c2")), Ok(2));
    assert_eq!(delete_note(&mut store, &alice, 1), Ok(()));
    // The counter keeps counting ever-created notes, so the next number is 3.
    assert_eq!(create_note(&mut store, &alice, String::from("t3"), String::from("c3")), Ok(3));
    assert!(get_note(&store, &alice, 1).is_none());
    let (_, _, note_count) = get_profile(&store, &alice).unwrap();
    assert_eq!(note_count, 3);
}
