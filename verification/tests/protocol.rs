use duhashtsrv::{
    error_response, process_query, query_response, render_text_lines, sort_pairs,
    update_response, HashPair, HashStore, ProtoCommand, ProtoError, ProtoResponseStatus,
    ProtoVersion,
};

fn pair(high: u64, low: u64) -> HashPair {
    HashPair::new(high, low)
}

#[test]
fn version_byte_mapping_is_total() {
    assert!(matches!(ProtoVersion::from_byte(b'1'), ProtoVersion::V1));
    assert!(matches!(ProtoVersion::from_byte(b'2'), ProtoVersion::Unknown));
    assert!(matches!(ProtoVersion::from_byte(0), ProtoVersion::Unknown));
    assert!(matches!(ProtoVersion::from_byte(b'x'), ProtoVersion::Unknown));
}

#[test]
fn command_byte_mapping_is_total() {
    assert!(matches!(ProtoCommand::from_byte(b'q'), ProtoCommand::Query));
    assert!(matches!(ProtoCommand::from_byte(b'u'), ProtoCommand::Update));
    assert!(matches!(ProtoCommand::from_byte(b'e'), ProtoCommand::End));
    assert!(matches!(ProtoCommand::from_byte(b'x'), ProtoCommand::Unknown));
    assert!(matches!(ProtoCommand::from_byte(0), ProtoCommand::Unknown));
}

#[test]
fn status_bytes_match_the_wire() {
    assert_eq!(ProtoResponseStatus::Success.to_byte(), b's');
    assert_eq!(ProtoResponseStatus::Error.to_byte(), b'e');
}

#[test]
fn every_error_has_its_stable_wire_text() {
    assert_eq!(ProtoError::InvalidLength.wire_text(), "ERROR_INVALID_LENGTH");
    assert_eq!(
        ProtoError::InvalidProtoVersion.wire_text(),
        "ERROR_INVALID_PROTO_VERSION"
    );
    assert_eq!(ProtoError::InvalidCommand.wire_text(), "ERROR_INVALID_COMMAND");
    assert_eq!(ProtoError::ReadFail.wire_text(), "ERROR_READ_FAIL");
    assert_eq!(
        ProtoError::ChangeDirCheckFail.wire_text(),
        "ERROR_CHANGE_DIR_CHECK_FAIL"
    );
    assert_eq!(
        ProtoError::ChangeFileCreateFail.wire_text(),
        "ERROR_CHANGE_FILE_CREATE_FAIL"
    );
    assert_eq!(
        ProtoError::ChangeFileWriteFail.wire_text(),
        "ERROR_CHANGE_FILE_WRITE_FAIL"
    );
    assert_eq!(
        ProtoError::ChangeFileRemoveFail.wire_text(),
        "ERROR_CHANGE_FILE_REMOVE_FAIL"
    );
}

#[test]
fn unknown_command_error_response_names_the_condition() {
    let resp = error_response(&ProtoError::InvalidCommand);
    assert_eq!(resp[0], b'e');
    assert_eq!(&resp[1..], b"ERROR_INVALID_COMMAND");
}

#[test]
fn unknown_version_error_response_names_the_condition() {
    let resp = error_response(&ProtoError::InvalidProtoVersion);
    assert_eq!(resp[0], b'e');
    assert_eq!(&resp[1..], b"ERROR_INVALID_PROTO_VERSION");
}

#[test]
fn empty_query_batch_gives_zero_length_success_response() {
    let st = HashStore::new();
    let results = process_query(&st, &Vec::new());
    assert!(results.is_empty());
    let resp = query_response(&results);
    assert_eq!(resp, vec![b's']);
}

#[test]
fn query_marks_present_and_absent_hashes_in_input_order() {
    let mut st = HashStore::new();
    st.insert_if_absent(pair(1, 0));
    st.insert_if_absent(pair(3, 0));
    let batch = vec![pair(2, 0), pair(1, 0), pair(4, 0), pair(3, 0)];
    let results = process_query(&st, &batch);
    assert_eq!(results, vec![0, 1, 0, 1]);
    let resp = query_response(&results);
    assert_eq!(resp, vec![b's', 0, 1, 0, 1]);
}

#[test]
fn update_response_carries_big_endian_count() {
    assert_eq!(update_response(0), vec![b's', 0, 0]);
    assert_eq!(update_response(2), vec![b's', 0, 2]);
    assert_eq!(update_response(0x0102), vec![b's', 1, 2]);
    assert_eq!(update_response(u16::MAX), vec![b's', 0xFF, 0xFF]);
}

#[test]
fn update_with_known_and_new_hashes_counts_and_journals_only_the_new() {
    let mut st = HashStore::new();
    st.insert_if_absent(pair(1, 0));
    st.insert_if_absent(pair(3, 0));
    // Five arrivals: two already present, one repeated within the batch.
    let batch = vec![pair(3, 0), pair(9, 0), pair(2, 0), pair(9, 0), pair(1, 0)];
    let inserted = st.bulk_update(&batch);
    assert_eq!(inserted.len(), 2);
    let resp = update_response(inserted.len() as u16);
    assert_eq!(resp, vec![b's', 0, 2]);
    let journal = render_text_lines(&sort_pairs(&inserted));
    assert_eq!(
        journal,
        vec![
            "00000000000000020000000000000000".to_string(),
            "00000000000000090000000000000000".to_string(),
        ]
    );
}

#[test]
fn update_with_only_known_hashes_leaves_nothing_to_journal() {
    let mut st = HashStore::new();
    st.insert_if_absent(pair(1, 0));
    let inserted = st.bulk_update(&vec![pair(1, 0), pair(1, 0)]);
    assert!(inserted.is_empty());
    assert_eq!(update_response(inserted.len() as u16), vec![b's', 0, 0]);
}

#[test]
fn rejected_header_leaves_the_store_untouched() {
    let mut st = HashStore::new();
    st.insert_if_absent(pair(5, 5));
    let before = st.as_vec();
    // An unsupported version byte is answered without any store call.
    let v = ProtoVersion::from_byte(b'9');
    assert!(matches!(v, ProtoVersion::Unknown));
    let resp = error_response(&ProtoError::InvalidProtoVersion);
    assert_eq!(resp[0], b'e');
    assert_eq!(st.as_vec(), before);
}
