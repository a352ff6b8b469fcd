//! The two record kinds that the ledger persists: a user's profile and a
//! note, together with their mathematical models and size accounting.

use vstd::prelude::*;
use crate::addressing::Identity;

verus! {

/// Upper bound on a username, in text units.
pub const MAX_USERNAME_LEN: usize = 50;

/// Upper bound on a note's title, in text units.
pub const MAX_TITLE_LEN: usize = 100;

/// Upper bound on a note's content, in text units.
pub const MAX_CONTENT_LEN: usize = 500;

/// Store-specific discriminator bytes reserved ahead of every record.
pub const RECORD_HEADER_SPACE: u64 = 8;

/// Storage allocated for a profile record: header, authority, length-prefixed
/// username at its bound, note counter.
pub const PROFILE_SPACE: u64 = 8 + 32 + 4 + 50 + 8;

/// Storage allocated for a note record: header, authority, sequence number,
/// length-prefixed title and content at their bounds.
pub const NOTE_SPACE: u64 = 8 + 32 + 8 + 4 + 100 + 4 + 500;

/// One user's profile record, created once per identity.
pub struct UserProfile {
    /// The owning identity.
    pub authority: Identity,
    /// Bounded text chosen at registration.
    pub username: String,
    /// How many notes this authority has ever created; never reset, so note
    /// sequence numbers are never reused.
    pub note_count: u64,
}

/// The mathematical model of a [`UserProfile`].
pub struct ProfileView {
    pub authority: Seq<u8>,
    pub username: Seq<char>,
    pub note_count: u64,
}

impl View for UserProfile {
    type V = ProfileView;

    open spec fn view(&self) -> ProfileView {
        ProfileView {
            authority: self.authority@,
            username: self.username@,
            note_count: self.note_count,
        }
    }
}

/// One note record, alive from its creation until its deletion.
pub struct Note {
    /// The owning identity; always the creator.
    pub authority: Identity,
    /// 1-based sequence number, assigned from the owner's note counter.
    pub id: u64,
    /// Bounded text, fixed at creation.
    pub title: String,
    /// Bounded text, replaceable in place.
    pub content: String,
}

/// The mathematical model of a [`Note`].
pub struct NoteView {
    pub authority: Seq<u8>,
    pub id: u64,
    pub title: Seq<char>,
    pub content: Seq<char>,
}

impl View for Note {
    type V = NoteView;

    open spec fn view(&self) -> NoteView {
        NoteView {
            authority: self.authority@,
            id: self.id,
            title: self.title@,
            content: self.content@,
        }
    }
}

/// A record as the store holds it.
pub enum Record {
    Profile(UserProfile),
    Note(Note),
}

/// The mathematical model of a [`Record`].
pub enum RecordView {
    Profile(ProfileView),
    Note(NoteView),
}

impl View for Record {
    type V = RecordView;

    open spec fn view(&self) -> RecordView {
        match self {
            Record::Profile(p) => RecordView::Profile(p@),
            Record::Note(n) => RecordView::Note(n@),
        }
    }
}

} // verus!
