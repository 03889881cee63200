use wmacro::selection::{
    answer_selection_request, request_target, retake_selection, take_property_chunk, ChunkStep, SelectionAtoms, SelectionData,
    MAX_SELECTION_BYTES,
};

fn atoms() -> SelectionAtoms {
    SelectionAtoms {
        clipboard: 10,
        utf8_string: 11,
        string: 12,
        text_plain: 13,
        text_plain_charset: 14,
        text: 15,
        targets: 16,
        timestamp: 17,
        multiple: 18,
        integer: 19,
        atom: 20,
        property: 21,
        incr: 22,
    }
}

#[test]
fn targets_lists_what_is_offered() {
    let a = atoms();
    assert_eq!(a.text_targets(), vec![11, 13, 14, 12, 15]);
    let ans = answer_selection_request(&a, 16, 99, 5);
    assert_eq!(ans.property, 99);
    match ans.data {
        SelectionData::Items { kind, items } => {
            assert_eq!(kind, 20);
            assert_eq!(items, vec![11, 13, 14, 12, 15, 16, 17, 18]);
        }
        _ => panic!("expected the target list"),
    }
    assert!(!ans.delete_property);
    assert_eq!(ans.notify_property, 99);
}

#[test]
fn timestamp_and_text_targets() {
    let a = atoms();
    match answer_selection_request(&a, 17, 99, 1234).data {
        SelectionData::Items { kind, items } => {
            assert_eq!(kind, 19);
            assert_eq!(items, vec![1234]);
        }
        _ => panic!("expected the timestamp"),
    }
    for t in [11, 13, 14] {
        assert!(matches!(answer_selection_request(&a, t, 99, 0).data, SelectionData::Text { kind: 11 }));
    }
    for t in [12, 15] {
        assert!(matches!(answer_selection_request(&a, t, 99, 0).data, SelectionData::Text { kind: 12 }));
    }
}

#[test]
fn unknown_targets_are_refused() {
    let a = atoms();
    let ans = answer_selection_request(&a, 18, 99, 0);
    assert!(matches!(ans.data, SelectionData::Refused));
    assert!(ans.delete_property);
    assert_eq!(ans.notify_property, 0);
}

#[test]
fn a_missing_property_falls_back_to_the_target() {
    let a = atoms();
    let ans = answer_selection_request(&a, 11, 0, 0);
    assert_eq!(ans.property, 11);
    assert_eq!(ans.notify_property, 11);
    assert!(!ans.delete_property);
}

#[test]
fn retaking_the_selection() {
    assert!(retake_selection(false, false, 0));
    assert!(retake_selection(false, false, 7));
    assert!(!retake_selection(false, false, 8));
    assert!(!retake_selection(true, false, 0));
    assert!(!retake_selection(false, true, 0));
}

#[test]
fn request_targets() {
    let a = atoms();
    assert_eq!(request_target(&a, false), 11);
    assert_eq!(request_target(&a, true), 12);
}

#[test]
fn reading_the_property_in_chunks() {
    let mut data = Vec::new();
    let mut offset = 0u32;
    assert_eq!(take_property_chunk(&mut data, &mut offset, 11, &vec![1, 2, 3, 4, 5], 3, 22), ChunkStep::More);
    assert_eq!(offset, 2);
    assert_eq!(data, vec![1, 2, 3, 4, 5]);
    assert_eq!(take_property_chunk(&mut data, &mut offset, 11, &vec![6, 7, 8], 0, 22), ChunkStep::Done);
    assert_eq!(offset, 2);
    assert_eq!(data, vec![1, 2, 3, 4, 5, 6, 7, 8]);

    let mut data = vec![9];
    let mut offset = 4u32;
    assert_eq!(take_property_chunk(&mut data, &mut offset, 22, &vec![1, 2], 10, 22), ChunkStep::Fail);
    assert_eq!(data, vec![9]);
    assert_eq!(offset, 4);

    let mut data = vec![0u8; MAX_SELECTION_BYTES];
    let mut offset = 0u32;
    assert_eq!(take_property_chunk(&mut data, &mut offset, 11, &vec![1], 1, 22), ChunkStep::Fail);
}
