use rocketmq::fields::Fields;
use rocketmq::protocol::{
    decode_compact_header, decode_frame, encode_compact_header, encode_frame, DecodeError, Header,
    HeaderCodecType, LanguageCode, RemotingCommand, RocketMQHeaderCodec,
};

fn sample_fields() -> Fields {
    vec![
        ("messageId".to_string(), "123".to_string()),
        ("offset".to_string(), "456".to_string()),
    ]
}

fn sample_command() -> RemotingCommand {
    RemotingCommand::new(
        1,
        10,
        0,
        "remark".to_string(),
        sample_fields(),
        b"Hello World".to_vec(),
    )
}

#[test]
fn test_remote_command_rocketmq_encode_decode_roundtrip() {
    let cmd = sample_command();
    let encoded = cmd.encode_compact().unwrap();
    let (decoded, used) = RemotingCommand::decode_compact(&encoded).unwrap();
    assert_eq!(cmd, decoded);
    assert_eq!(used, encoded.len());
}

#[test]
fn test_remote_command_type() {
    let mut cmd = sample_command();
    assert!(!cmd.is_response_type());

    cmd.mark_response_type();
    assert!(cmd.is_response_type());
}

#[test]
fn compact_header_layout() {
    let header = Header {
        code: 10,
        language: LanguageCode::JAVA,
        version: 431,
        opaque: 7,
        flag: 1,
        remark: "ab".to_string(),
        ext_fields: vec![("k".to_string(), "v".to_string())],
    };
    let bytes = encode_compact_header(&header).unwrap();
    let expected: Vec<u8> = vec![
        0, 10, 0, 1, 175, 0, 0, 0, 7, 0, 0, 0, 1, 0, 0, 0, 2, b'a', b'b', 0, 0, 0, 8, 0, 1, b'k',
        0, 0, 0, 1, b'v',
    ];
    assert_eq!(bytes, expected);
    assert_eq!(decode_compact_header(&bytes).unwrap(), header);
    assert_eq!(RocketMQHeaderCodec.decode(&bytes).unwrap(), header);
}

#[test]
fn compact_header_empty_sections() {
    let header = Header {
        code: -3,
        language: LanguageCode::OMS,
        version: -1,
        opaque: i32::MIN,
        flag: i32::MAX,
        remark: String::new(),
        ext_fields: Vec::new(),
    };
    let bytes = encode_compact_header(&header).unwrap();
    assert_eq!(bytes.len(), 21);
    assert_eq!(decode_compact_header(&bytes).unwrap(), header);
}

#[test]
fn round_trip_keeps_every_field_and_insertion_order() {
    for codec_fields in [
        vec![("a".to_string(), "1".to_string()), ("b".to_string(), "2".to_string())],
        vec![("b".to_string(), "2".to_string()), ("a".to_string(), "1".to_string())],
    ] {
        let cmd = RemotingCommand::new(42, 105, 0, "é ü".to_string(), codec_fields, vec![0, 255, 7]);
        let bytes = cmd.encode_compact().unwrap();
        let (back, _) = RemotingCommand::decode_compact(&bytes).unwrap();
        assert_eq!(back, cmd);
    }
}

#[test]
fn frame_layout_and_trailing_bytes() {
    let frame = encode_frame(HeaderCodecType::Json, b"{}", b"xyz").unwrap();
    assert_eq!(frame, vec![0, 0, 0, 9, 0, 0, 0, 2, b'{', b'}', b'x', b'y', b'z']);
    let mut more = frame.clone();
    more.extend_from_slice(b"next");
    let f = decode_frame(&more).unwrap();
    assert_eq!(f.codec, HeaderCodecType::Json);
    assert_eq!(f.header, b"{}".to_vec());
    assert_eq!(f.body, b"xyz".to_vec());
    assert_eq!(f.len, 13);
}

#[test]
fn truncated_frames_are_rejected_at_every_length() {
    let encoded = sample_command().encode_compact().unwrap();
    for n in 0..encoded.len() {
        assert_eq!(
            decode_frame(&encoded[..n]).unwrap_err(),
            DecodeError::Truncated,
            "prefix of {} bytes",
            n
        );
        assert!(RemotingCommand::decode_compact(&encoded[..n]).is_err());
    }
    assert!(decode_frame(&encoded).is_ok());
}

#[test]
fn bad_codec_byte_is_rejected() {
    let mut frame = encode_frame(HeaderCodecType::RocketMQ, b"", b"").unwrap();
    frame[4] = 9;
    assert_eq!(decode_frame(&frame).unwrap_err(), DecodeError::BadCodec);
}

#[test]
fn json_frame_is_not_decoded_as_compact() {
    let frame = encode_frame(HeaderCodecType::Json, b"{}", b"").unwrap();
    assert_eq!(RemotingCommand::decode_compact(&frame).unwrap_err(), DecodeError::BadCodec);
}

#[test]
fn inconsistent_lengths_are_rejected() {
    // total length below four
    assert_eq!(decode_frame(&[0, 0, 0, 2, 0, 0]).unwrap_err(), DecodeError::BadLength);
    // negative total length
    assert_eq!(decode_frame(&[255, 255, 255, 255]).unwrap_err(), DecodeError::BadLength);
    // header longer than the frame
    assert_eq!(
        decode_frame(&[0, 0, 0, 4, 1, 0, 0, 9]).unwrap_err(),
        DecodeError::BadLength
    );
}

#[test]
fn bad_language_and_bad_utf8_are_rejected() {
    let header = Header {
        code: 1,
        language: LanguageCode::GO,
        version: 1,
        opaque: 1,
        flag: 0,
        remark: "x".to_string(),
        ext_fields: Vec::new(),
    };
    let mut bytes = encode_compact_header(&header).unwrap();
    let mut bad_lang = bytes.clone();
    bad_lang[2] = 200;
    assert_eq!(decode_compact_header(&bad_lang).unwrap_err(), DecodeError::BadLanguage);
    bytes[17] = 0xff;
    assert_eq!(decode_compact_header(&bytes).unwrap_err(), DecodeError::BadUtf8);
    assert_eq!(decode_compact_header(&bytes[..10]).unwrap_err(), DecodeError::Truncated);
}

#[test]
fn duplicate_keys_on_the_wire_keep_the_last_value() {
    let mut bytes = vec![0, 1, 7, 0, 1, 0, 0, 0, 1, 0, 0, 0, 0, 0, 0, 0, 0];
    let entries: Vec<u8> = vec![
        0, 1, b'k', 0, 0, 0, 1, b'a', 0, 1, b'k', 0, 0, 0, 1, b'b',
    ];
    bytes.extend_from_slice(&[0, 0, 0, entries.len() as u8]);
    bytes.extend_from_slice(&entries);
    let h = decode_compact_header(&bytes).unwrap();
    assert_eq!(h.ext_fields, vec![("k".to_string(), "b".to_string())]);
}

#[test]
fn language_names() {
    assert_eq!(LanguageCode::from_name("JAVA"), LanguageCode::JAVA);
    assert_eq!(LanguageCode::from_name("rust"), LanguageCode::OTHER);
    assert_eq!(LanguageCode::PYTHON.name(), "PYTHON");
    assert_eq!(LanguageCode::from_u8(11), Some(LanguageCode::OMS));
    assert_eq!(LanguageCode::from_u8(12), None);
    assert_eq!(HeaderCodecType::from_u8(1), Some(HeaderCodecType::RocketMQ));
}
