//! Notes: a titled entry with a body, optional tags and an optional
//! importance level, and the whole-file list they are stored in,
//! most-recent-first.

use vstd::prelude::*;

verus! {

/// One stored note. A missing `lvl` means "unset", which is distinct from
/// level 0 everywhere but in level filtering.
#[derive(Debug, Clone, PartialEq)]
pub struct Note {
    pub title: String,
    pub body: String,
    pub tags: Option<Vec<String>>,
    pub lvl: Option<u8>,
}

impl Note {
    /// A note with the given title and body and nothing else set.
    pub fn new(title: &str, body: &str) -> (n: Note)
        ensures
            n.title@ == title@,
            n.body@ == body@,
            n.tags is None,
            n.lvl is None,
    {
        Note { title: title.to_owned(), body: body.to_owned(), tags: None, lvl: None }
    }
}

/// The stored list of notes, as the on-disk document holds it: an optional
/// list, `None` standing for a file with no entries yet.
#[derive(Debug)]
pub struct Notes {
    pub todo: Option<Vec<Note>>,
}

impl Notes {
    /// Wraps a list of notes for storage.
    pub fn new(v: Vec<Note>) -> (r: Notes)
        ensures
            r.todo == Some(v),
    {
        Notes { todo: Some(v) }
    }
}

/// A parsed request to take a new note.
#[derive(Debug)]
pub struct NewCommand {
    pub title: String,
    pub body: String,
    pub lvl: Option<u8>,
    pub tags: Option<Vec<String>>,
}

impl NewCommand {
    /// The note this request describes.
    pub fn into_note(self) -> (n: Note)
        ensures
            n.title == self.title,
            n.body == self.body,
            n.tags == self.tags,
            n.lvl == self.lvl,
    {
        Note { title: self.title, body: self.body, tags: self.tags, lvl: self.lvl }
    }
}

/// Puts a new note in front of the list: the newest note sits at position
/// 0, and every existing note moves one position back.
pub fn add_note(notes: &mut Vec<Note>, n: Note)
    ensures
        final(notes)@ == seq![n] + old(notes)@,
{
    notes.insert(0, n);
    proof {
        assert(notes@ =~= seq![n] + old(notes)@);
    }
}

} // verus!
