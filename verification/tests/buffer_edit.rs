use evie_core::action::{Delete, Insert, Replace};
use evie_core::buffer::{Buffer, Location};
use evie_core::engine::EngineError;
use evie_core::rope::rope_from_str;
use evie_core::{BufferAction, Edit};

fn buffer_with(content: &str) -> Buffer {
    Buffer {
        loc: Location { cursor: 0 },
        path: String::from("scratch.txt"),
        text: rope_from_str(content),
    }
}

#[test]
fn empty() {
    let file = buffer_with("");
    assert_eq!(file.content(), "");
}

#[test]
fn yeah() {
    let file = buffer_with("yeah");
    assert_eq!(file.content(), "yeah");
}

#[test]
fn insert_yeah() {
    let mut file = buffer_with("");
    let r = file.edit(Edit::One(BufferAction::Insert(Insert {
        index: 0,
        text: String::from("yeah"),
    })));
    assert!(r.is_ok());
    assert_eq!(file.content(), "yeah");
}

#[test]
fn delete_yeah() {
    let mut file = buffer_with("yeah");
    let r = file.edit(Edit::One(BufferAction::Delete(Delete { range: 0..4 })));
    assert!(r.is_ok());
    assert_eq!(file.content(), "");
}

#[test]
fn replace_yeah() {
    let mut file = buffer_with("yeah");
    let r = file.edit(Edit::One(BufferAction::Replace(Replace {
        range: 0..4,
        new_text: String::from("Hello, World!"),
    })));
    assert!(r.is_ok());
    assert_eq!(file.content(), "Hello, World!");
}

#[test]
fn insert_in_the_middle() {
    let mut file = buffer_with("ad");
    let r = file.apply(BufferAction::Insert(Insert {
        index: 1,
        text: String::from("bc"),
    }));
    assert!(r.is_ok());
    assert_eq!(file.content(), "abcd");
}

#[test]
fn offset_round_trip_ascii() {
    let mut file = buffer_with("abcd");
    let text = "wxyz";
    let i = 2usize;
    file.apply(BufferAction::Insert(Insert {
        index: i,
        text: String::from(text),
    }))
    .unwrap();
    assert_eq!(file.content(), "abwxyzcd");
    file.apply(BufferAction::Delete(Delete {
        range: i..i + text.len(),
    }))
    .unwrap();
    assert_eq!(file.content(), "abcd");
}

#[test]
fn offset_round_trip_multibyte() {
    // 'é' is two bytes, '日' three: offsets count bytes, not characters
    let mut file = buffer_with("aé日b");
    let text = "xé";
    let i = 3usize; // after 'a' (1) + 'é' (2)
    file.apply(BufferAction::Insert(Insert {
        index: i,
        text: String::from(text),
    }))
    .unwrap();
    assert_eq!(file.content(), "aéxé日b");
    file.apply(BufferAction::Delete(Delete {
        range: i..i + text.len(),
    }))
    .unwrap();
    assert_eq!(file.content(), "aé日b");
}

#[test]
fn boundary_rejection_insert() {
    let mut file = buffer_with("é");
    let r = file.apply(BufferAction::Insert(Insert {
        index: 1,
        text: String::from("x"),
    }));
    match r {
        Err(EngineError::InvalidOffset(offset)) => assert_eq!(offset, 1),
        other => panic!("expected InvalidOffset, got {other:?}"),
    }
    assert_eq!(file.content(), "é");
}

#[test]
fn boundary_rejection_delete() {
    let mut file = buffer_with("é!");
    let r = file.apply(BufferAction::Delete(Delete { range: 0..1 }));
    match r {
        Err(EngineError::InvalidOffset(offset)) => assert_eq!(offset, 1),
        other => panic!("expected InvalidOffset, got {other:?}"),
    }
    assert_eq!(file.content(), "é!");
}

#[test]
fn out_of_range_offset_rejected() {
    let mut file = buffer_with("ab");
    let r = file.apply(BufferAction::Insert(Insert {
        index: 3,
        text: String::from("x"),
    }));
    match r {
        Err(EngineError::InvalidOffset(offset)) => assert_eq!(offset, 3),
        other => panic!("expected InvalidOffset, got {other:?}"),
    }
    assert_eq!(file.content(), "ab");
}

#[test]
fn inverted_range_rejected() {
    let mut file = buffer_with("abcd");
    let r = file.apply(BufferAction::Delete(Delete { range: 3..1 }));
    assert!(matches!(r, Err(EngineError::InvalidOffset(3))));
    assert_eq!(file.content(), "abcd");
}

#[test]
fn replace_keeps_the_start_position() {
    let mut file = buffer_with("one two three");
    file.apply(BufferAction::Replace(Replace {
        range: 4..7,
        new_text: String::from("2"),
    }))
    .unwrap();
    assert_eq!(file.content(), "one 2 three");
}

#[test]
fn append_advances_the_cursor() {
    let mut file = buffer_with("");
    file.apply(BufferAction::Append(String::from("hé")))
        .unwrap();
    file.apply(BufferAction::Append(String::from("llo")))
        .unwrap();
    // ordered, non-overlapping insertions at the tracked cursor
    assert_eq!(file.content(), "héllo");
    assert_eq!(file.loc.cursor, 6);
}

#[test]
fn insert_before_cursor_shifts_it() {
    let mut file = buffer_with("");
    file.apply(BufferAction::Append(String::from("world")))
        .unwrap();
    assert_eq!(file.loc.cursor, 5);
    file.apply(BufferAction::Insert(Insert {
        index: 0,
        text: String::from("hello "),
    }))
    .unwrap();
    assert_eq!(file.content(), "hello world");
    assert_eq!(file.loc.cursor, 11);
    // appending continues at the shifted cursor
    file.apply(BufferAction::Append(String::from("!")))
        .unwrap();
    assert_eq!(file.content(), "hello world!");
}

#[test]
fn multi_edit_applies_in_order() {
    let mut file = buffer_with("");
    let r = file.edit(Edit::Multi(vec![
        BufferAction::Append(String::from("a")),
        BufferAction::Append(String::from("b")),
        BufferAction::Append(String::from("c")),
    ]));
    assert!(r.is_ok());
    assert_eq!(file.content(), "abc");
}

#[test]
fn multi_edit_stops_at_first_failure() {
    let mut file = buffer_with("é");
    let r = file.edit(Edit::Multi(vec![
        BufferAction::Insert(Insert {
            index: 0,
            text: String::from("a"),
        }),
        // byte 2 now splits 'é' (which occupies bytes 1..3)
        BufferAction::Insert(Insert {
            index: 2,
            text: String::from("x"),
        }),
        BufferAction::Append(String::from("never")),
    ]));
    assert!(matches!(r, Err(EngineError::InvalidOffset(2))));
    // the first action took effect and stays; the rest were not applied
    assert_eq!(file.content(), "aé");
}
