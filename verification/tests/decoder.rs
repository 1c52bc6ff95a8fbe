use ifconnect::data::{ChunkType, ConnectionData};
use ifconnect::error::{DecodeError, ManifestError, PayloadError};
use ifconnect::event_args::{Received, ReceivedDataArgs, ReceivedManifestArgs};
use ifconnect::manifest::Manifest;
use ifconnect::typed_value::TypedValue;

const MANIFEST: &str = "1,4,a/b\n2,1,c/d\n7,3,speed\n8,0,flag\n9,5,big\n10,2,ratio\n11,9,odd";

fn header(id: i32, data_length: i32) -> Vec<u8> {
    let mut bytes = id.to_le_bytes().to_vec();
    bytes.extend_from_slice(&data_length.to_le_bytes());
    bytes
}

fn text_frame(id: i32, text: &[u8]) -> Vec<u8> {
    let mut bytes = header(id, text.len() as i32 + 4);
    bytes.extend_from_slice(&(text.len() as i32).to_le_bytes());
    bytes.extend_from_slice(text);
    bytes
}

fn value_frame(id: i32, payload: &[u8]) -> Vec<u8> {
    let mut bytes = header(id, payload.len() as i32);
    bytes.extend_from_slice(payload);
    bytes
}

fn feed(data: &mut ConnectionData, bytes: &[u8]) -> Vec<Received> {
    data.read_chunk(bytes.to_vec(), bytes.len())
}

fn feed_by(data: &mut ConnectionData, bytes: &[u8], size: usize) -> Vec<Received> {
    let mut events = Vec::new();
    for piece in bytes.chunks(size) {
        events.extend(feed(data, piece));
    }
    events
}

fn with_manifest() -> ConnectionData {
    let mut data = ConnectionData::new();
    let events = feed(&mut data, &text_frame(-1, MANIFEST.as_bytes()));
    assert_eq!(events.len(), 1);
    assert!(matches!(events[0], Received::Manifest(_)));
    data
}

fn show(events: &[Received]) -> Vec<String> {
    events
        .iter()
        .map(|e| match e {
            Received::Data(args) => format!("data {} {:?}", args.command_id, args.data),
            Received::Manifest(args) => format!("manifest {}", args.manifest.entries_num()),
            Received::Failed(error) => format!("failed {:?}", error),
        })
        .collect()
}

#[test]
fn a_new_decoder_awaits_a_command_id() {
    let data = ConnectionData::new();
    assert_eq!(data.next_chunk_type(), ChunkType::CommandId);
    assert_eq!(data.bytes_wanted(), 4);
    assert!(matches!(data.get_manifest(), Err(ManifestError::NoManifest())));
}

#[test]
fn a_double_arrives_once_however_the_stream_is_cut() {
    let x = 123.456f64;
    let stream = value_frame(7, &x.to_le_bytes());
    assert_eq!(stream.len(), 16);
    let expected = vec![format!("data 7 Double({})", x.to_bits())];

    let mut one_shot = with_manifest();
    assert_eq!(show(&feed(&mut one_shot, &stream)), expected);

    let mut byte_wise = with_manifest();
    assert_eq!(show(&feed_by(&mut byte_wise, &stream, 1)), expected);

    for size in 2..16 {
        let mut data = with_manifest();
        assert_eq!(show(&feed_by(&mut data, &stream, size)), expected, "reads of {}", size);
        assert_eq!(data.next_chunk_type(), ChunkType::CommandId);
        assert_eq!(data.bytes_wanted(), 4);
    }
}

#[test]
fn the_event_comes_with_the_last_byte_only() {
    let mut data = with_manifest();
    let stream = value_frame(7, &1.0f64.to_le_bytes());
    for (i, byte) in stream.iter().enumerate() {
        let events = feed(&mut data, &[*byte]);
        if i + 1 < stream.len() {
            assert!(events.is_empty(), "byte {}", i);
        } else {
            assert_eq!(show(&events), vec![format!("data 7 Double({})", 1.0f64.to_bits())]);
        }
    }
}

#[test]
fn the_decoder_asks_for_no_more_than_the_chunk_lacks() {
    let mut data = with_manifest();
    assert_eq!((data.next_chunk_type(), data.bytes_wanted()), (ChunkType::CommandId, 4));
    feed(&mut data, &[7]);
    assert_eq!((data.next_chunk_type(), data.bytes_wanted()), (ChunkType::CommandId, 3));
    feed(&mut data, &[0, 0, 0]);
    assert_eq!((data.next_chunk_type(), data.bytes_wanted()), (ChunkType::DataLength, 4));
    feed(&mut data, &[8, 0, 0, 0]);
    assert_eq!((data.next_chunk_type(), data.bytes_wanted()), (ChunkType::Data, 8));
    feed(&mut data, &[1, 2, 3]);
    assert_eq!((data.next_chunk_type(), data.bytes_wanted()), (ChunkType::Data, 5));
    let events = feed(&mut data, &[4, 5, 6, 7, 8]);
    assert_eq!(events.len(), 1);
    assert_eq!((data.next_chunk_type(), data.bytes_wanted()), (ChunkType::CommandId, 4));

    feed(&mut data, &header(1, 9));
    assert_eq!((data.next_chunk_type(), data.bytes_wanted()), (ChunkType::StringLength, 4));
    feed(&mut data, &5i32.to_le_bytes());
    assert_eq!((data.next_chunk_type(), data.bytes_wanted()), (ChunkType::Data, 5));
    feed(&mut data, b"he");
    assert_eq!((data.next_chunk_type(), data.bytes_wanted()), (ChunkType::Data, 3));
    assert_eq!(show(&feed(&mut data, b"llo")), vec!["data 1 String(\"hello\")"]);
}

#[test]
fn an_empty_read_changes_nothing() {
    let mut data = with_manifest();
    feed(&mut data, &[7, 0]);
    assert!(feed(&mut data, &[]).is_empty());
    assert!(data.read_chunk(vec![1, 2, 3], 0).is_empty());
    assert_eq!((data.next_chunk_type(), data.bytes_wanted()), (ChunkType::CommandId, 2));
}

#[test]
fn only_the_first_length_bytes_are_taken() {
    let mut data = with_manifest();
    let mut buffer = value_frame(2, &42i32.to_le_bytes());
    buffer.extend_from_slice(&[0xaa; 20]);
    assert_eq!(show(&data.read_chunk(buffer, 12)), vec!["data 2 Integer32(42)"]);
    assert_eq!((data.next_chunk_type(), data.bytes_wanted()), (ChunkType::CommandId, 4));
}

#[test]
fn every_wire_type_is_decoded_by_the_manifest() {
    let mut data = with_manifest();
    let mut stream = Vec::new();
    stream.extend(value_frame(8, &[1, 0, 0, 0]));
    stream.extend(value_frame(2, &(-5i32).to_le_bytes()));
    stream.extend(value_frame(10, &0.5f32.to_le_bytes()));
    stream.extend(value_frame(7, &(-0.25f64).to_le_bytes()));
    stream.extend(text_frame(1, "grüß".as_bytes()));
    stream.extend(value_frame(9, &(-6_000_000_000i64).to_le_bytes()));
    let expected = vec![
        "data 8 Boolean(true)".to_string(),
        "data 2 Integer32(-5)".to_string(),
        format!("data 10 Float({})", 0.5f32.to_bits()),
        format!("data 7 Double({})", (-0.25f64).to_bits()),
        "data 1 String(\"grüß\")".to_string(),
        "data 9 Long(-6000000000)".to_string(),
    ];
    assert_eq!(show(&feed(&mut data, &stream)), expected);
    for size in [1, 3, 5, 7, 11] {
        let mut data = with_manifest();
        assert_eq!(show(&feed_by(&mut data, &stream, size)), expected, "reads of {}", size);
    }
}

#[test]
fn pipelined_frames_do_not_bleed_into_each_other() {
    let mut data = with_manifest();
    let mut stream = value_frame(2, &1i32.to_le_bytes());
    stream.extend(value_frame(2, &2i32.to_le_bytes()));
    stream.extend(value_frame(2, &3i32.to_le_bytes()));
    assert_eq!(
        show(&feed(&mut data, &stream)),
        vec!["data 2 Integer32(1)", "data 2 Integer32(2)", "data 2 Integer32(3)"]
    );
}

#[test]
fn the_manifest_arrives_over_many_reads() {
    let frame = text_frame(-1, MANIFEST.as_bytes());
    for size in [1, 2, 5, 13, 1024] {
        let mut data = ConnectionData::new();
        let events = feed_by(&mut data, &frame, size);
        assert_eq!(show(&events), vec!["manifest 7"], "reads of {}", size);
        let held = data.get_manifest().unwrap();
        assert_eq!(held.entries_num(), 7);
        assert_eq!(held.get_entry_by_path("speed").unwrap().id, 7);
        match &events[0] {
            Received::Manifest(args) => {
                assert_eq!(args.manifest.get_entry_by_path("c/d").unwrap().id, 2)
            }
            _ => unreachable!(),
        }
    }
}

#[test]
fn a_second_manifest_replaces_the_first() {
    let mut data = with_manifest();
    assert!(data.get_manifest().unwrap().get_entry_by_path("a/b").is_ok());
    let events = feed(&mut data, &text_frame(-1, b"20,1,new/one\n2,3,c/d"));
    assert_eq!(show(&events), vec!["manifest 2"]);
    let held = data.get_manifest().unwrap();
    assert_eq!(held.entries_num(), 2);
    assert_eq!(held.get_entry_by_path("new/one").unwrap().id, 20);
    assert_eq!(held.get_entry_by_path("c/d").unwrap().data_type, 3);
    assert!(matches!(held.get_entry_by_path("a/b"), Err(ManifestError::NoSuchEntryPath(p)) if p == "a/b"));
    assert!(matches!(held.get_entry_by_id(&1), Err(ManifestError::NoSuchEntryId(1))));
    assert!(matches!(held.get_data_type_for_id(&7), Err(ManifestError::NoSuchEntryId(7))));

    let mut stream = value_frame(2, &2.0f64.to_le_bytes());
    stream.extend(header(7, 8));
    assert_eq!(
        show(&feed(&mut data, &stream)),
        vec![
            format!("data 2 Double({})", 2.0f64.to_bits()),
            "failed Schema(NoSuchEntryId(7))".to_string()
        ]
    );
}

#[test]
fn an_unknown_tag_fails_the_frame() {
    let mut data = with_manifest();
    let events = feed(&mut data, &header(11, 4));
    assert_eq!(show(&events), vec!["failed Schema(WrongDataType(9))"]);
    assert!(matches!(
        &events[0],
        Received::Failed(DecodeError::Schema(ManifestError::WrongDataType(9)))
    ));
    assert_eq!((data.next_chunk_type(), data.bytes_wanted()), (ChunkType::DataLength, 4));
}

#[test]
fn an_unknown_id_fails_the_frame() {
    let mut data = with_manifest();
    let events = feed_by(&mut data, &header(99, 4), 1);
    assert_eq!(show(&events), vec!["failed Schema(NoSuchEntryId(99))"]);
    assert_eq!(data.next_chunk_type(), ChunkType::DataLength);
}

#[test]
fn a_value_before_any_manifest_fails() {
    let mut data = ConnectionData::new();
    let events = feed(&mut data, &header(7, 8));
    assert_eq!(show(&events), vec!["failed Schema(NoManifest)"]);
    assert!(matches!(
        &events[0],
        Received::Failed(DecodeError::Schema(ManifestError::NoManifest()))
    ));
    assert_eq!(data.next_chunk_type(), ChunkType::DataLength);
}

#[test]
fn text_that_is_not_utf8_fails_and_the_stream_goes_on() {
    let mut data = with_manifest();
    let mut stream = text_frame(1, &[b'a', 0xff, b'b']);
    stream.extend(value_frame(2, &9i32.to_le_bytes()));
    assert_eq!(
        show(&feed(&mut data, &stream)),
        vec!["failed Payload(InvalidUtf8)", "data 2 Integer32(9)"]
    );
}

#[test]
fn a_character_cut_by_a_read_is_put_together() {
    let mut data = with_manifest();
    let text = "a✈b";
    let frame = text_frame(1, text.as_bytes());
    assert_eq!(show(&feed_by(&mut data, &frame, 1)), vec!["data 1 String(\"a✈b\")"]);
}

#[test]
fn a_malformed_manifest_fails_and_the_old_one_stays() {
    let mut data = with_manifest();
    let mut stream = text_frame(-1, b"1,4,a/b\nnonsense");
    stream.extend(text_frame(-1, &[0xc0, 0x80]));
    stream.extend(value_frame(2, &9i32.to_le_bytes()));
    assert_eq!(
        show(&feed(&mut data, &stream)),
        vec![
            "failed Payload(MalformedManifest)",
            "failed Payload(InvalidUtf8)",
            "data 2 Integer32(9)"
        ]
    );
    assert_eq!(data.get_manifest().unwrap().entries_num(), 7);
}

#[test]
fn an_empty_text_completes_with_its_length() {
    let mut data = with_manifest();
    let mut stream = text_frame(1, b"");
    stream.extend(value_frame(2, &9i32.to_le_bytes()));
    let events = feed_by(&mut data, &stream, 1);
    assert_eq!(show(&events), vec!["data 1 String(\"\")", "data 2 Integer32(9)"]);

    let mut data = with_manifest();
    let events = feed(&mut data, &text_frame(1, b""));
    assert_eq!(show(&events), vec!["data 1 String(\"\")"]);
    assert_eq!((data.next_chunk_type(), data.bytes_wanted()), (ChunkType::CommandId, 4));
}

#[test]
fn a_negative_string_length_completes_an_empty_payload() {
    let mut data = with_manifest();
    let mut stream = header(1, 4);
    stream.extend_from_slice(&(-3i32).to_le_bytes());
    assert_eq!(show(&feed(&mut data, &stream)), vec!["data 1 String(\"\")"]);
    assert_eq!(data.next_chunk_type(), ChunkType::CommandId);
}

#[test]
fn an_empty_manifest_text_is_an_empty_manifest() {
    let mut data = with_manifest();
    assert_eq!(show(&feed(&mut data, &text_frame(-1, b""))), vec!["manifest 0"]);
    assert_eq!(data.get_manifest().unwrap().entries_num(), 0);
}

#[test]
fn the_data_length_is_not_the_payload_width() {
    let mut data = with_manifest();
    let mut stream = header(2, 1000);
    stream.extend_from_slice(&77i32.to_le_bytes());
    stream.extend(value_frame(8, &[0, 0, 0, 0]));
    assert_eq!(
        show(&feed(&mut data, &stream)),
        vec!["data 2 Integer32(77)", "data 8 Boolean(false)"]
    );
}

#[test]
fn event_arguments_hold_what_they_are_given() {
    let args = ReceivedDataArgs::new(5, TypedValue::Long(6));
    assert_eq!(args.command_id, 5);
    assert!(matches!(args.data, TypedValue::Long(6)));
    let args = ReceivedManifestArgs::new(Manifest::from_str("1,0,x").unwrap());
    assert_eq!(args.manifest.entries_num(), 1);
}

#[test]
fn decoding_leaves_the_outbound_queue_alone() {
    let mut data = ConnectionData::new();
    data.send_get_state(3);
    feed(&mut data, &text_frame(-1, MANIFEST.as_bytes()));
    assert_eq!(data.send(), Some(vec![3, 0, 0, 0]));
}

#[test]
fn the_default_data_path_is_a_new_one() {
    let mut data = ConnectionData::default();
    assert_eq!(data.next_chunk_type(), ChunkType::CommandId);
    assert_eq!(data.bytes_wanted(), 4);
    assert!(data.get_manifest().is_err());
    assert_eq!(data.send(), None);
}

#[test]
fn bytes_are_appended_by_range() {
    let mut buffer = vec![1u8, 2];
    ifconnect::data::append_bytes(&mut buffer, &[10, 11, 12, 13], 1, 3);
    assert_eq!(buffer, vec![1, 2, 11, 12]);
    ifconnect::data::append_bytes(&mut buffer, &[10, 11], 2, 2);
    assert_eq!(buffer, vec![1, 2, 11, 12]);
    ifconnect::data::append_bytes(&mut buffer, &[7], 0, 1);
    assert_eq!(buffer, vec![1, 2, 11, 12, 7]);
}
