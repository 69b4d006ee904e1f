use xml_split::counters::Counters;
use xml_split::nesting::{parent_from_nesting, root_from_nesting};

#[test]
fn root_is_first_segment() {
    assert_eq!(root_from_nesting(&"/rss/item".to_string()), Some("rss".to_string()));
    assert_eq!(root_from_nesting(&"rss/item".to_string()), Some("rss".to_string()));
    assert_eq!(root_from_nesting(&"/feed/a/entry".to_string()), Some("feed".to_string()));
    assert_eq!(root_from_nesting(&"rss".to_string()), None);
}

#[test]
fn item_is_last_non_empty_segment() {
    assert_eq!(parent_from_nesting(&"rss/item".to_string()), Some("item".to_string()));
    assert_eq!(parent_from_nesting(&"/a/b/entry".to_string()), Some("entry".to_string()));
    assert_eq!(parent_from_nesting(&"rss/item//".to_string()), Some("item".to_string()));
    assert_eq!(parent_from_nesting(&"rss/é".to_string()), Some("é".to_string()));
    assert_eq!(parent_from_nesting(&"item".to_string()), None);
    assert_eq!(parent_from_nesting(&"//".to_string()), None);
    assert_eq!(parent_from_nesting(&"".to_string()), None);
}

#[test]
fn counters_roll_over() {
    let mut c = Counters::new(2);
    assert_eq!((c.chunk_id, c.item_chunk_id, c.item_id), (0, 0, 0));
    c.update();
    assert_eq!((c.chunk_id, c.item_chunk_id, c.item_id), (0, 1, 1));
    c.update();
    assert_eq!((c.chunk_id, c.item_chunk_id, c.item_id), (1, 0, 2));
    c.update();
    assert_eq!((c.chunk_id, c.item_chunk_id, c.item_id), (1, 1, 3));
}

#[test]
fn counters_without_limit_stay_in_first_chunk() {
    let mut c = Counters::new(0);
    for _ in 0..5 {
        c.update();
    }
    assert_eq!((c.chunk_id, c.item_chunk_id, c.item_id), (0, 5, 5));
}

#[test]
fn counters_one_per_chunk() {
    let mut c = Counters::new(1);
    c.update();
    c.update();
    assert_eq!((c.chunk_id, c.item_chunk_id, c.item_id), (2, 0, 2));
}

use xml_split::reserialize::{EventKind, Reaction, Reserializer};

#[test]
fn reserializer_opens_and_closes_chunks() {
    let mut r = Reserializer::new(2, b"item".to_vec());
    assert_eq!(
        r.step(EventKind::Start, b"rss"),
        Reaction { open_chunk: None, write_event: false, close_root: false }
    );
    assert_eq!(
        r.step(EventKind::Start, b"item"),
        Reaction { open_chunk: Some(0), write_event: true, close_root: false }
    );
    assert_eq!(
        r.step(EventKind::Text, b""),
        Reaction { open_chunk: None, write_event: true, close_root: false }
    );
    assert_eq!(
        r.step(EventKind::End, b"item"),
        Reaction { open_chunk: None, write_event: true, close_root: false }
    );
    assert_eq!(
        r.step(EventKind::Start, b"item"),
        Reaction { open_chunk: None, write_event: true, close_root: false }
    );
    assert_eq!(
        r.step(EventKind::Other, b""),
        Reaction { open_chunk: None, write_event: false, close_root: false }
    );
    assert_eq!(
        r.step(EventKind::End, b"item"),
        Reaction { open_chunk: None, write_event: true, close_root: true }
    );
    assert_eq!(
        r.step(EventKind::Text, b""),
        Reaction { open_chunk: None, write_event: false, close_root: false }
    );
    assert_eq!(
        r.step(EventKind::Start, b"item"),
        Reaction { open_chunk: Some(1), write_event: true, close_root: false }
    );
}

#[test]
fn reserializer_without_limit_never_closes_root() {
    let mut r = Reserializer::new(0, b"x".to_vec());
    assert_eq!(r.step(EventKind::Start, b"x").open_chunk, Some(0));
    assert!(!r.step(EventKind::End, b"x").close_root);
    assert_eq!(r.step(EventKind::Start, b"x").open_chunk, None);
}
