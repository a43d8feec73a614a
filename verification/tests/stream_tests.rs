use ipc_stream::chunk::{Chunk, Column};
use ipc_stream::dict::{DictAction, DictionaryTracker};
use ipc_stream::error::StreamError;
use ipc_stream::fields::{default_ipc_fields, DataType, Field, IpcField, Schema};
use ipc_stream::stream::{StreamWriter, WriteOptions};

fn options() -> WriteOptions {
    WriteOptions { compression: false }
}

fn field(name: &str, data_type: DataType) -> Field {
    Field { name: name.as_bytes().to_vec(), data_type }
}

fn two_field_schema() -> Schema {
    Schema {
        fields: vec![
            field("id", DataType::UInt64),
            field("label", DataType::DictionaryBinary),
        ],
    }
}

fn dict_column(values: &[&str], keys: &[u32]) -> Column {
    Column::Dictionary {
        values: values.iter().map(|v| v.as_bytes().to_vec()).collect(),
        keys: keys.to_vec(),
    }
}

fn three_row_chunk(values: &[&str]) -> Chunk {
    Chunk::new(vec![
        Column::Primitive(vec![10, 20, 30]),
        dict_column(values, &[0, 1, 0]),
    ])
}

fn le32_at(bytes: &[u8], pos: usize) -> u32 {
    u32::from_le_bytes([bytes[pos], bytes[pos + 1], bytes[pos + 2], bytes[pos + 3]])
}

fn le64_at(bytes: &[u8], pos: usize) -> u64 {
    let mut b = [0u8; 8];
    b.copy_from_slice(&bytes[pos..pos + 8]);
    u64::from_le_bytes(b)
}

fn pad8(n: usize) -> usize {
    (8 - n % 8) % 8
}

/// One decoded message of the test decoder.
#[derive(Debug)]
enum Message {
    Schema {
        fields: Vec<(Vec<u8>, bool, Option<u64>)>,
    },
    Dictionary {
        replacement: bool,
        id: u64,
        values: Vec<Vec<u8>>,
    },
    Data {
        rows: u32,
        columns: Vec<DecodedColumn>,
    },
}

#[derive(Debug)]
enum DecodedColumn {
    Primitive(Vec<u64>),
    Keys(Vec<u32>),
}

/// Decodes a whole stream: framing, schema, dictionary and data messages,
/// and the end-of-stream marker. Panics on anything malformed.
fn decode_stream(bytes: &[u8]) -> Vec<Message> {
    decode_stream_with_lengths(bytes)
        .into_iter()
        .map(|(m, _)| m)
        .collect()
}

/// Like `decode_stream`, but pairs each message with its framed length on
/// the wire: 4 + 4 + padded header length + padded body length.
fn decode_stream_with_lengths(bytes: &[u8]) -> Vec<(Message, usize)> {
    let mut messages = Vec::new();
    let mut kinds: Vec<bool> = Vec::new();
    let mut pos = 0usize;
    loop {
        let marker = le32_at(bytes, pos);
        pos += 4;
        if marker == 0 {
            assert_eq!(pos, bytes.len(), "bytes after the end-of-stream marker");
            return messages;
        }
        assert_eq!(marker, 0xFFFF_FFFF, "bad continuation marker");
        let message_start = pos - 4;
        let padded_header_len = le32_at(bytes, pos) as usize;
        pos += 4;
        assert_eq!(padded_header_len % 8, 0, "header length not padded");
        let header = &bytes[pos..pos + padded_header_len];
        pos += padded_header_len;
        match header[0] {
            1 => {
                let count = le32_at(header, 1) as usize;
                let mut fields = Vec::new();
                let mut hp = 5usize;
                for _ in 0..count {
                    let name_len = le32_at(header, hp) as usize;
                    hp += 4;
                    let name = header[hp..hp + name_len].to_vec();
                    hp += name_len;
                    let is_dict = header[hp] == 1;
                    hp += 1;
                    let id = if is_dict {
                        let id = le64_at(header, hp);
                        hp += 8;
                        Some(id)
                    } else {
                        None
                    };
                    kinds.push(is_dict);
                    fields.push((name, is_dict, id));
                }
                messages.push((Message::Schema { fields }, pos - message_start));
            }
            2 => {
                let replacement = header[1] == 1;
                let id = le64_at(header, 2);
                let count = le32_at(header, 10) as usize;
                let mut values = Vec::new();
                let mut body_len = 0usize;
                for _ in 0..count {
                    let len = le32_at(bytes, pos + body_len) as usize;
                    body_len += 4;
                    values.push(bytes[pos + body_len..pos + body_len + len].to_vec());
                    body_len += len;
                }
                if body_len > 0 {
                    for k in 0..pad8(body_len) {
                        assert_eq!(bytes[pos + body_len + k], 0, "body padding not zero");
                    }
                    pos += body_len + pad8(body_len);
                }
                messages.push((
                    Message::Dictionary { replacement, id, values },
                    pos - message_start,
                ));
            }
            3 => {
                let rows = le32_at(header, 1);
                let cols = le32_at(header, 5) as usize;
                assert_eq!(cols, kinds.len(), "column count differs from the schema");
                let mut columns = Vec::new();
                let mut body_len = 0usize;
                for kind in &kinds {
                    if *kind {
                        let mut keys = Vec::new();
                        for _ in 0..rows {
                            keys.push(le32_at(bytes, pos + body_len));
                            body_len += 4;
                        }
                        columns.push(DecodedColumn::Keys(keys));
                    } else {
                        let mut values = Vec::new();
                        for _ in 0..rows {
                            values.push(le64_at(bytes, pos + body_len));
                            body_len += 8;
                        }
                        columns.push(DecodedColumn::Primitive(values));
                    }
                }
                if body_len > 0 {
                    pos += body_len + pad8(body_len);
                }
                messages.push((Message::Data { rows, columns }, pos - message_start));
            }
            other => panic!("unknown message tag {}", other),
        }
    }
}

fn dictionary_messages(messages: &[Message]) -> Vec<(bool, u64, Vec<Vec<u8>>)> {
    let mut out = Vec::new();
    for m in messages {
        if let Message::Dictionary { replacement, id, values } = m {
            out.push((*replacement, *id, values.clone()));
        }
    }
    out
}

#[test]
fn start_then_finish_yields_schema_and_marker_only() {
    let mut w = StreamWriter::new(Vec::new(), options());
    w.start(&two_field_schema(), None).unwrap();
    w.finish().unwrap();
    let bytes = w.into_inner();
    let messages = decode_stream(&bytes);
    assert_eq!(messages.len(), 1);
    match &messages[0] {
        Message::Schema { fields } => {
            assert_eq!(fields.len(), 2);
            assert_eq!(fields[0], (b"id".to_vec(), false, None));
            assert_eq!(fields[1], (b"label".to_vec(), true, Some(0)));
        }
        other => panic!("expected a schema message, got {:?}", other),
    }
}

#[test]
fn empty_schema_frame_is_byte_exact() {
    let mut w = StreamWriter::new(Vec::new(), options());
    w.start(&Schema { fields: vec![] }, None).unwrap();
    w.finish().unwrap();
    let bytes = w.into_inner();
    // Header is [tag 1][count 0] = 5 bytes, padded to 8; then the marker.
    let expected = vec![
        0xFF, 0xFF, 0xFF, 0xFF, // continuation marker
        8, 0, 0, 0, // padded header length
        1, 0, 0, 0, 0, // schema tag, zero field count
        0, 0, 0, // padding to the eight-byte boundary
        0, 0, 0, 0, // end-of-stream marker
    ];
    assert_eq!(bytes, expected);
}

#[test]
fn write_before_start_fails() {
    let mut w = StreamWriter::new(Vec::new(), options());
    let err = w.write(&three_row_chunk(&["a", "b"]), None).unwrap_err();
    assert_eq!(err, StreamError::NotStarted);
    assert_eq!(w.bytes_written(), 0);
}

#[test]
fn finish_before_start_fails() {
    let mut w = StreamWriter::new(Vec::new(), options());
    assert_eq!(w.finish().unwrap_err(), StreamError::NotStarted);
}

#[test]
fn start_twice_fails() {
    let mut w = StreamWriter::new(Vec::new(), options());
    w.start(&two_field_schema(), None).unwrap();
    let before = w.bytes_written();
    assert_eq!(
        w.start(&two_field_schema(), None).unwrap_err(),
        StreamError::AlreadyStarted
    );
    assert_eq!(w.bytes_written(), before);
}

#[test]
fn finish_twice_fails() {
    let mut w = StreamWriter::new(Vec::new(), options());
    w.start(&two_field_schema(), None).unwrap();
    w.finish().unwrap();
    let before = w.bytes_written();
    assert_eq!(w.finish().unwrap_err(), StreamError::TerminalStream);
    assert_eq!(w.bytes_written(), before);
}

#[test]
fn write_after_finish_fails_and_writes_nothing() {
    let mut w = StreamWriter::new(Vec::new(), options());
    w.start(&two_field_schema(), None).unwrap();
    w.finish().unwrap();
    let before = w.bytes_written();
    let err = w.write(&three_row_chunk(&["a", "b"]), None).unwrap_err();
    assert_eq!(err, StreamError::TerminalStream);
    assert_eq!(err.describe(), "cannot write to a finished stream");
    assert_eq!(w.bytes_written(), before);
    assert_eq!(w.into_inner().len(), before);
}

#[test]
fn unequal_row_counts_are_rejected() {
    let mut w = StreamWriter::new(Vec::new(), options());
    w.start(&two_field_schema(), None).unwrap();
    let before = w.bytes_written();
    let chunk = Chunk {
        columns: vec![
            Column::Primitive(vec![1, 2, 3]),
            dict_column(&["a"], &[0, 0]), // two rows against three
        ],
    };
    assert_eq!(w.write(&chunk, None).unwrap_err(), StreamError::InvalidChunk);
    assert_eq!(w.bytes_written(), before);
}

#[test]
fn column_kind_contradicting_mapping_is_rejected() {
    let mut w = StreamWriter::new(Vec::new(), options());
    w.start(&two_field_schema(), None).unwrap();
    let chunk = Chunk {
        columns: vec![
            Column::Primitive(vec![1, 2, 3]),
            Column::Primitive(vec![4, 5, 6]), // mapping says dictionary-encoded
        ],
    };
    assert_eq!(w.write(&chunk, None).unwrap_err(), StreamError::InvalidChunk);
}

#[test]
fn wrong_column_count_is_rejected() {
    let mut w = StreamWriter::new(Vec::new(), options());
    w.start(&two_field_schema(), None).unwrap();
    let chunk = Chunk {
        columns: vec![Column::Primitive(vec![1, 2, 3])],
    };
    assert_eq!(w.write(&chunk, None).unwrap_err(), StreamError::InvalidChunk);
}

#[test]
fn identical_dictionaries_are_sent_once() {
    let mut w = StreamWriter::new(Vec::new(), options());
    w.start(&two_field_schema(), None).unwrap();
    w.write(&three_row_chunk(&["red", "blue"]), None).unwrap();
    w.write(&three_row_chunk(&["red", "blue"]), None).unwrap();
    w.finish().unwrap();
    let messages = decode_stream(&w.into_inner());
    let dicts = dictionary_messages(&messages);
    assert_eq!(dicts.len(), 1, "one dictionary message across both writes");
    assert_eq!(
        dicts[0],
        (false, 0, vec![b"red".to_vec(), b"blue".to_vec()])
    );
    assert_eq!(messages.len(), 4); // schema, dictionary, data, data
}

#[test]
fn changed_dictionary_is_replaced_when_allowed() {
    let mut w = StreamWriter::new(Vec::new(), options());
    w.start(&two_field_schema(), None).unwrap();
    w.write(&three_row_chunk(&["red", "blue"]), None).unwrap();
    w.write(&three_row_chunk(&["green", "blue"]), None).unwrap();
    w.finish().unwrap();
    let messages = decode_stream(&w.into_inner());
    let dicts = dictionary_messages(&messages);
    assert_eq!(dicts.len(), 2, "two dictionary messages for the identifier");
    assert_eq!(dicts[0].0, false, "first is a fresh emission");
    assert_eq!(dicts[1].0, true, "second is marked as a replacement");
    assert_eq!(dicts[1].2, vec![b"green".to_vec(), b"blue".to_vec()]);
}

#[test]
fn changed_dictionary_is_rejected_when_forbidden() {
    let mut w = StreamWriter::new_with_dictionary_policy(Vec::new(), options(), true);
    w.start(&two_field_schema(), None).unwrap();
    w.write(&three_row_chunk(&["red", "blue"]), None).unwrap();
    let before = w.bytes_written();
    let err = w
        .write(&three_row_chunk(&["green", "blue"]), None)
        .unwrap_err();
    assert_eq!(err, StreamError::DictionaryReplacementRejected);
    assert_eq!(w.bytes_written(), before, "byte counter unchanged");
}

#[test]
fn value_order_matters_for_dictionary_equality() {
    let mut w = StreamWriter::new(Vec::new(), options());
    w.start(&two_field_schema(), None).unwrap();
    w.write(&three_row_chunk(&["red", "blue"]), None).unwrap();
    w.write(&three_row_chunk(&["blue", "red"]), None).unwrap();
    w.finish().unwrap();
    let dicts = dictionary_messages(&decode_stream(&w.into_inner()));
    assert_eq!(dicts.len(), 2, "same values in another order are a replacement");
}

#[test]
fn bytes_written_matches_the_framed_lengths() {
    let mut w = StreamWriter::new(Vec::new(), options());
    w.start(&two_field_schema(), None).unwrap();
    w.write(&three_row_chunk(&["red", "blue"]), None).unwrap();
    w.write(&three_row_chunk(&["red", "blue"]), None).unwrap();
    w.finish().unwrap();
    let reported = w.bytes_written();
    let bytes = w.into_inner();
    assert_eq!(reported, bytes.len());
    // Re-derive the total from the wire: per message 4 + 4 + padded header
    // + padded body, plus 4 for the end-of-stream marker.
    let framed: usize = decode_stream_with_lengths(&bytes)
        .iter()
        .map(|(_, len)| *len)
        .sum();
    assert_eq!(reported, framed + 4);
}

#[test]
fn round_trip_two_fields_three_rows() {
    let mut w = StreamWriter::new(Vec::new(), options());
    w.start(&two_field_schema(), None).unwrap();
    w.write(&three_row_chunk(&["red", "blue"]), None).unwrap();
    w.finish().unwrap();
    let messages = decode_stream(&w.into_inner());
    assert_eq!(messages.len(), 3); // schema, dictionary, data
    match &messages[0] {
        Message::Schema { fields } => assert_eq!(fields.len(), 2),
        other => panic!("expected a schema message, got {:?}", other),
    }
    match &messages[2] {
        Message::Data { rows, columns } => {
            assert_eq!(*rows, 3);
            assert_eq!(columns.len(), 2);
            match &columns[0] {
                DecodedColumn::Primitive(values) => assert_eq!(values, &vec![10, 20, 30]),
                other => panic!("expected a plain column, got {:?}", other),
            }
            match &columns[1] {
                DecodedColumn::Keys(keys) => assert_eq!(keys, &vec![0, 1, 0]),
                other => panic!("expected dictionary codes, got {:?}", other),
            }
        }
        other => panic!("expected a data message, got {:?}", other),
    }
}

#[test]
fn caller_supplied_mapping_overrides_the_default() {
    let mut w = StreamWriter::new(Vec::new(), options());
    let mapping = vec![
        IpcField { dictionary_id: None },
        IpcField { dictionary_id: Some(7) },
    ];
    w.start(&two_field_schema(), Some(mapping)).unwrap();
    w.write(&three_row_chunk(&["red", "blue"]), None).unwrap();
    w.finish().unwrap();
    let dicts = dictionary_messages(&decode_stream(&w.into_inner()));
    assert_eq!(dicts.len(), 1);
    assert_eq!(dicts[0].1, 7, "the declared identifier is on the wire");
}

#[test]
fn default_mapping_assigns_ascending_identifiers() {
    let fields = vec![
        field("a", DataType::DictionaryBinary),
        field("b", DataType::UInt64),
        field("c", DataType::DictionaryBinary),
    ];
    let mapping = default_ipc_fields(&fields);
    assert_eq!(mapping[0].dictionary_id, Some(0));
    assert_eq!(mapping[1].dictionary_id, None);
    assert_eq!(mapping[2].dictionary_id, Some(1));
}

#[test]
fn tracker_decides_per_the_replacement_policy() {
    let one = vec![b"x".to_vec()];
    let two = vec![b"y".to_vec()];
    let mut tracker = DictionaryTracker::new(false);
    assert_eq!(tracker.should_emit(5, &one), DictAction::EmitFresh);
    assert_eq!(tracker.should_emit(5, &one), DictAction::Skip);
    assert_eq!(tracker.should_emit(5, &two), DictAction::EmitReplacement);
    assert_eq!(tracker.should_emit(5, &two), DictAction::Skip);
    let mut frozen = DictionaryTracker::new(true);
    assert_eq!(frozen.should_emit(5, &one), DictAction::EmitFresh);
    assert_eq!(frozen.should_emit(5, &two), DictAction::Reject);
    assert_eq!(frozen.should_emit(5, &one), DictAction::Skip);
}

#[test]
fn sink_contents_are_kept_and_returned() {
    let mut sink = Vec::new();
    sink.extend_from_slice(b"prefix");
    let mut w = StreamWriter::new(sink, options());
    w.start(&Schema { fields: vec![] }, None).unwrap();
    w.finish().unwrap();
    let total = w.bytes_written();
    let bytes = w.into_inner();
    assert_eq!(&bytes[..6], b"prefix");
    assert_eq!(bytes.len(), 6 + total);
    decode_stream(&bytes[6..]);
}

#[test]
fn empty_chunk_of_no_columns_frames_a_data_message() {
    let mut w = StreamWriter::new(Vec::new(), options());
    w.start(&Schema { fields: vec![] }, None).unwrap();
    w.write(&Chunk { columns: vec![] }, None).unwrap();
    w.finish().unwrap();
    let messages = decode_stream(&w.into_inner());
    assert_eq!(messages.len(), 2);
    match &messages[1] {
        Message::Data { rows, columns } => {
            assert_eq!(*rows, 0);
            assert!(columns.is_empty());
        }
        other => panic!("expected a data message, got {:?}", other),
    }
}

#[test]
fn le32_encoding_is_little_endian() {
    let mut out = Vec::new();
    ipc_stream::wire::push_le32(&mut out, 0x1234_5678);
    assert_eq!(out, vec![0x78, 0x56, 0x34, 0x12]);
    let mut out64 = Vec::new();
    ipc_stream::wire::push_le64(&mut out64, 0x0102_0304_0506_0708);
    assert_eq!(out64, vec![8, 7, 6, 5, 4, 3, 2, 1]);
}
