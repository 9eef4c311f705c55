//! Tests of the pipeline: fail-fast composition and error mapping.

use replay_bridge::pipeline::{
    finish_extract, get_replay_meta, map_error, parse_replay, run_decode, run_decode_and_extract,
    run_decode_only, CollectorOutcome,
};
use replay_bridge::value::{HostValue, NumKind, Tree};

/// A smallest well-formed replay buffer: an empty header (version 0.0, no
/// properties) and a body of ten empty lists, with no network frames. The
/// stored checksums are never consulted because every section parses.
fn minimal_replay() -> Vec<u8> {
    let mut data: Vec<u8> = Vec::new();
    data.extend_from_slice(&22i32.to_le_bytes()); // header data size
    data.extend_from_slice(&0u32.to_le_bytes()); // header checksum
    data.extend_from_slice(&0i32.to_le_bytes()); // major version
    data.extend_from_slice(&0i32.to_le_bytes()); // minor version
    data.extend_from_slice(&1i32.to_le_bytes()); // game type: one byte,
    data.push(0); // the terminator of an empty string
    data.extend_from_slice(&5i32.to_le_bytes()); // first property key: "None",
    data.extend_from_slice(b"None\0"); // which closes the property dict
    data.extend_from_slice(&40i32.to_le_bytes()); // body data size
    data.extend_from_slice(&0u32.to_le_bytes()); // body checksum
    data.extend_from_slice(&[0u8; 40]); // ten empty lists and sizes
    data
}

#[test]
fn minimal_replay_decodes_to_a_mapping_with_header_fields() {
    let host = parse_replay(&minimal_replay()).ok().expect("a well-formed replay decodes");
    match &host {
        HostValue::Dict(entries) => {
            assert!(entries.iter().any(|(k, _)| k == "header_size"));
            assert!(entries.iter().any(|(k, _)| k == "game_type"));
            assert!(entries.iter().any(|(k, _)| k == "network_frames"));
            for pair in entries.windows(2) {
                assert!(pair[0].0 < pair[1].0);
            }
        }
        _ => panic!("expected a key-ordered mapping"),
    }
}

#[test]
fn extract_pipeline_converts_meta_and_returns_the_array() {
    let r = run_decode_and_extract(&minimal_replay(), |replay: boxcars::Replay| {
        CollectorOutcome::Collected(
            Tree::Object(vec![(String::from("game_type"), Tree::Text(replay.game_type))]),
            vec![0.5f32, 1.5f32],
        )
    });
    let (host, array) = r.ok().expect("decode and collection both succeed");
    assert_eq!(array, vec![0.5f32, 1.5f32]);
    assert_eq!(
        host,
        HostValue::Dict(vec![(String::from("game_type"), HostValue::Text(String::new()))])
    );
}

#[test]
fn checksum_failure_that_survives_recovery_is_a_decode_error() {
    let mut data = minimal_replay();
    // ruin the game-type length so the header no longer parses; the stored
    // checksum then disagrees with the data, so the recovery check fails too
    data[16] = 200;
    match parse_replay(&data) {
        Err(e) => assert!(e.message.contains("corrupt")),
        Ok(_) => panic!("a corrupt replay must not decode"),
    }
}

#[test]
fn repeated_decodes_serialize_byte_identically() {
    let data = minimal_replay();
    let first = parse_replay(&data).ok().unwrap();
    let second = parse_replay(&data).ok().unwrap();
    let text_one = replay_bridge::serial::to_canonical_text(&first);
    let text_two = replay_bridge::serial::to_canonical_text(&second);
    assert_eq!(text_one, text_two);
}

#[test]
fn garbage_bytes_fail_decode() {
    let r = parse_replay(b"not a replay at all");
    match r {
        Err(e) => assert!(!e.message.is_empty()),
        Ok(_) => panic!("garbage must not decode"),
    }
}

#[test]
fn empty_buffer_fails_decode() {
    assert!(run_decode_only(b"").is_err());
    assert!(run_decode(b"").is_err());
}

#[test]
fn decode_failure_never_reaches_the_collector() {
    let mut collector_ran = false;
    let r = run_decode_and_extract(b"\x00\x01\x02\x03", |_replay: boxcars::Replay| {
        collector_ran = true;
        CollectorOutcome::<Vec<f32>>::Failed(String::from("unreachable"))
    });
    assert!(r.is_err());
    assert!(!collector_ran);
    let message = r.err().unwrap().message;
    assert!(!message.contains("unreachable"));
}

#[test]
fn decode_failure_never_reaches_the_meta_pass() {
    let mut meta_ran = false;
    let r = get_replay_meta(b"\xff\xfe\xfd", |_replay: boxcars::Replay| {
        meta_ran = true;
        Ok(Tree::Null)
    });
    assert!(r.is_err());
    assert!(!meta_ran);
}

#[test]
fn collected_outcome_converts_meta_and_passes_array_through() {
    let meta = Tree::Object(vec![
        (String::from("b"), Tree::Num(NumKind::Unsigned(1))),
        (String::from("a"), Tree::Num(NumKind::Unsigned(2))),
    ]);
    let array: Vec<f32> = vec![1.0, 2.5, -3.0];
    let r = finish_extract(CollectorOutcome::Collected(meta, array.clone()));
    let (host, back) = r.ok().unwrap();
    assert_eq!(back, array);
    assert_eq!(
        host,
        HostValue::Dict(vec![
            (String::from("a"), HostValue::UInt(2)),
            (String::from("b"), HostValue::UInt(1)),
        ])
    );
}

#[test]
fn failed_outcome_maps_to_uniform_error() {
    let r = finish_extract(CollectorOutcome::<Vec<f32>>::Failed(String::from("boom")));
    match r {
        Err(e) => assert_eq!(e.message, "boom"),
        Ok(_) => panic!("a failed collection must not succeed"),
    }
}

#[test]
fn error_mapper_keeps_the_message() {
    let e = map_error(String::from("stage said: no"));
    assert_eq!(e.message, "stage said: no");
}
