//! The random pick's tag screen and draw.

use todo::note::Note;
use todo::random::{is_match, RandomCommand};

fn note(title: &str, tags: Option<&[&str]>) -> Note {
    Note {
        title: title.to_string(),
        body: String::new(),
        tags: tags.map(|ts| ts.iter().map(|t| t.to_string()).collect()),
        lvl: None,
    }
}

#[test]
fn is_match_lowercases_note_tags() {
    let lower = vec!["work".to_string()];
    let tags = vec!["WORK".to_string()];
    assert!(is_match(&lower, &tags));
    let other = vec!["Play".to_string()];
    assert!(!is_match(&lower, &other));
}

#[test]
fn is_match_any_of_either_list() {
    let lower = vec!["a".to_string(), "b".to_string()];
    let tags = vec!["c".to_string(), "B".to_string()];
    assert!(is_match(&lower, &tags));
    assert!(!is_match(&lower, &Vec::new()));
    assert!(!is_match(&Vec::new(), &tags));
}

#[test]
fn pool_keeps_tagged_notes_enumerated_after_screening() {
    let cmd = RandomCommand {
        n: 2,
        tags: Some(vec!["Work".to_string()]),
    };
    let notes = vec![
        note("A", Some(&["WORK"])),
        note("B", None),
        note("C", Some(&["work", "play"])),
        note("D", Some(&["rest"])),
    ];
    let pool = cmd.pool(notes);
    let got: Vec<(usize, &str)> = pool.iter().map(|(i, n)| (*i, n.title.as_str())).collect();
    assert_eq!(got, vec![(0, "A"), (1, "C")]);
}

#[test]
fn pool_without_tags_keeps_everything() {
    let cmd = RandomCommand { n: 1, tags: None };
    let notes = vec![note("A", None), note("B", Some(&["t"]))];
    let pool = cmd.pool(notes);
    assert_eq!(pool.len(), 2);
    assert_eq!(pool[0].0, 0);
    assert_eq!(pool[1].0, 1);
}

#[test]
fn draw_takes_min_of_request_and_pool() {
    let cmd = RandomCommand { n: 2, tags: None };
    let notes = vec![note("A", None), note("B", None), note("C", None)];
    let pool = cmd.pool(notes);
    let drawn = cmd.draw(pool.clone());
    assert_eq!(drawn.len(), 2);
    for p in &drawn {
        assert!(pool.contains(p));
    }
    // drawn pairs sit at distinct positions of the pool
    let mut positions: Vec<usize> = drawn.iter().map(|(i, _)| *i).collect();
    positions.sort();
    positions.dedup();
    assert_eq!(positions.len(), drawn.len());
    let few = RandomCommand { n: 9, tags: None };
    let drawn_all = few.draw(pool.clone());
    assert_eq!(drawn_all.len(), 3);
}
