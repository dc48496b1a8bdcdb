use liteipc::reading::{chunk_text, ReadOutcome};

#[test]
fn finished_read_contributes_its_text() {
    let outcome = ReadOutcome::Finished(Some("last words\n".to_string()));
    assert_eq!(chunk_text(outcome), "last words\n");
}

#[test]
fn finished_read_without_capture_contributes_nothing() {
    assert_eq!(chunk_text(ReadOutcome::Finished(None)), "");
}

#[test]
fn interrupted_read_contributes_its_bytes_as_text() {
    let outcome = ReadOutcome::Interrupted(Some(b"hello\nwor".to_vec()));
    assert_eq!(chunk_text(outcome), "hello\nwor");
}

#[test]
fn interrupted_read_decodes_multibyte_characters() {
    let bytes = vec![0x68, 0xc3, 0xa9, 0x0a, 0xe4, 0xb8, 0x96, 0xf0, 0x9f, 0x98, 0x80];
    let outcome = ReadOutcome::Interrupted(Some(bytes));
    assert_eq!(chunk_text(outcome), "h\u{e9}\n\u{4e16}\u{1f600}");
}

#[test]
fn interrupted_read_without_bytes_contributes_nothing() {
    assert_eq!(chunk_text(ReadOutcome::Interrupted(None)), "");
    assert_eq!(chunk_text(ReadOutcome::Interrupted(Some(Vec::new()))), "");
}

#[test]
fn bytes_that_are_no_text_are_discarded() {
    let outcome = ReadOutcome::Interrupted(Some(vec![0x61, 0xff, 0x62, 0x0a]));
    assert_eq!(chunk_text(outcome), "");
}

#[test]
fn character_cut_in_the_middle_is_discarded_with_its_read() {
    let outcome = ReadOutcome::Interrupted(Some(vec![0x61, 0x0a, 0xc3]));
    assert_eq!(chunk_text(outcome), "");
}

#[test]
fn overlong_and_surrogate_encodings_are_no_text() {
    assert_eq!(chunk_text(ReadOutcome::Interrupted(Some(vec![0xc0, 0x80]))), "");
    assert_eq!(chunk_text(ReadOutcome::Interrupted(Some(vec![0xed, 0xa0, 0x80]))), "");
    assert_eq!(
        chunk_text(ReadOutcome::Interrupted(Some(vec![0xf4, 0x90, 0x80, 0x80]))),
        ""
    );
}
