//! Listing and removal over a loaded note list, and note construction.

use todo::index::{Index, MinMax};
use todo::note::{add_note, NewCommand, Note, Notes};
use todo::query::Filter;
use todo::workflow::{ListCommand, RemoveCommand};

fn note(title: &str, lvl: Option<u8>, tags: Option<&[&str]>) -> Note {
    Note {
        title: title.to_string(),
        body: String::new(),
        tags: tags.map(|ts| ts.iter().map(|t| t.to_string()).collect()),
        lvl,
    }
}

/// The three-note scenario: A newest, then B, then C.
fn abc() -> Vec<Note> {
    vec![
        note("A", Some(5), None),
        note("B", None, None),
        note("C", Some(5), Some(&["x"])),
    ]
}

#[test]
fn list_by_level_selects_matching_positions() {
    // level 5 keeps A (position 0) and C (position 2); the whole-collection
    // span displays reversed, so the printer — which prints back to front —
    // shows A then C, in original order
    let cmd = ListCommand {
        index: Index::default(),
        filter: Filter {
            titles: None,
            lvl: Some(MinMax::Nth(5)),
            tags: None,
        },
    };
    assert_eq!(cmd.select(&abc()), vec![2, 0]);
}

#[test]
fn list_default_shows_five_newest() {
    let notes: Vec<Note> = (0..7).map(|i| note(&format!("n{}", i), None, None)).collect();
    let cmd = ListCommand::default();
    assert_eq!(cmd.select(&notes), vec![4, 3, 2, 1, 0]);
}

#[test]
fn list_with_descending_span_keeps_storage_order() {
    let notes: Vec<Note> = (0..7).map(|i| note(&format!("n{}", i), None, None)).collect();
    let cmd = ListCommand {
        index: Index::Between(5, 0),
        filter: Filter::default(),
    };
    assert_eq!(cmd.select(&notes), vec![0, 1, 2, 3, 4]);
}

#[test]
fn list_with_mixed_sign_span_keeps_storage_order() {
    // written as 5:-1 the first bound is not numerically smaller, so the
    // hand-over is not reversed, even though the calibrated bounds (5, 9)
    // ascend
    let notes: Vec<Note> = (0..10).map(|i| note(&format!("n{}", i), None, None)).collect();
    let cmd = ListCommand {
        index: Index::Between(5, -1),
        filter: Filter::default(),
    };
    assert_eq!(cmd.select(&notes), vec![5, 6, 7, 8]);
}

#[test]
fn list_empty_selection() {
    let cmd = ListCommand {
        index: Index::Between(2, 2),
        filter: Filter::default(),
    };
    assert_eq!(cmd.select(&abc()), Vec::<usize>::new());
    let none = ListCommand::default();
    assert_eq!(none.select(&Vec::new()), Vec::<usize>::new());
}

#[test]
fn remove_by_tag_deletes_only_matching() {
    let cmd = RemoveCommand {
        index: None,
        filter: Filter {
            titles: None,
            lvl: None,
            tags: Some(vec!["x".to_string()]),
        },
    };
    let (kept, deleted) = cmd.partition(abc());
    let kept_titles: Vec<&str> = kept.iter().map(|n| n.title.as_str()).collect();
    assert_eq!(kept_titles, vec!["A", "B"]);
    // one note deleted: C, from position 2
    assert_eq!(deleted.len(), 1);
    assert_eq!(deleted[0].0, 2);
    assert_eq!(deleted[0].1.title, "C");
}

#[test]
fn remove_with_nothing_requested_deletes_nothing() {
    let cmd = RemoveCommand {
        index: None,
        filter: Filter::default(),
    };
    let (kept, deleted) = cmd.partition(abc());
    assert_eq!(kept.len(), 3);
    assert!(deleted.is_empty());
}

#[test]
fn remove_by_index_uses_calibrated_range() {
    let cmd = RemoveCommand {
        index: Some(Index::Nth(-1)),
        filter: Filter::default(),
    };
    let (kept, deleted) = cmd.partition(abc());
    let kept_titles: Vec<&str> = kept.iter().map(|n| n.title.as_str()).collect();
    assert_eq!(kept_titles, vec!["A", "B"]);
    assert_eq!(deleted.len(), 1);
    assert_eq!(deleted[0].1.title, "C");
}

#[test]
fn remove_by_index_and_filter_deletes_union() {
    // kept = outside the range AND not filter-matched
    let cmd = RemoveCommand {
        index: Some(Index::Nth(1)),
        filter: Filter {
            titles: None,
            lvl: None,
            tags: Some(vec!["x".to_string()]),
        },
    };
    let (kept, deleted) = cmd.partition(abc());
    let kept_titles: Vec<&str> = kept.iter().map(|n| n.title.as_str()).collect();
    assert_eq!(kept_titles, vec!["A"]);
    assert_eq!(deleted.len(), 2);
}

#[test]
fn new_note_goes_in_front() {
    let mut notes = abc();
    let cmd = NewCommand {
        title: "D".to_string(),
        body: "body".to_string(),
        lvl: Some(1),
        tags: Some(vec!["y".to_string()]),
    };
    add_note(&mut notes, cmd.into_note());
    assert_eq!(notes.len(), 4);
    assert_eq!(notes[0].title, "D");
    assert_eq!(notes[0].lvl, Some(1));
    assert_eq!(notes[1].title, "A");
}

#[test]
fn note_new_sets_nothing_optional() {
    let n = Note::new("title", "body");
    assert_eq!(n.title, "title");
    assert_eq!(n.body, "body");
    assert!(n.tags.is_none());
    assert!(n.lvl.is_none());
}

#[test]
fn notes_wraps_list() {
    let ns = Notes::new(abc());
    assert_eq!(ns.todo.as_ref().map(|v| v.len()), Some(3));
}
