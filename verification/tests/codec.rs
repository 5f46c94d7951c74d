use liaozhai::codec::{CodecItem, TelnetCodecError, TelnetLineCodec};

fn decode_one(
    codec: &mut TelnetLineCodec,
    data: &[u8],
) -> Result<Option<CodecItem>, TelnetCodecError> {
    let mut buf = data.to_vec();
    codec.decode(&mut buf)
}

fn decode_line(codec: &mut TelnetLineCodec, data: &[u8]) -> Option<String> {
    match decode_one(codec, data).unwrap() {
        Some(CodecItem::Line(s)) => Some(s),
        _ => None,
    }
}

// --- Line splitting ---

#[test]
fn line_ending_crlf() {
    let mut codec = TelnetLineCodec::new();
    assert_eq!(decode_line(&mut codec, b"hello\r\n"), Some("hello".into()));
}

#[test]
fn line_ending_lf() {
    let mut codec = TelnetLineCodec::new();
    assert_eq!(decode_line(&mut codec, b"hello\n"), Some("hello".into()));
}

#[test]
fn line_ending_lone_cr() {
    let mut codec = TelnetLineCodec::new();
    assert_eq!(decode_line(&mut codec, b"hello\r"), Some("hello".into()));
}

#[test]
fn empty_line_crlf() {
    let mut codec = TelnetLineCodec::new();
    assert_eq!(decode_line(&mut codec, b"\r\n"), Some(String::new()));
}

#[test]
fn empty_line_lf() {
    let mut codec = TelnetLineCodec::new();
    assert_eq!(decode_line(&mut codec, b"\n"), Some(String::new()));
}

#[test]
fn multiple_lines_in_one_buffer() {
    let mut codec = TelnetLineCodec::new();
    let mut buf = b"one\r\ntwo\r\n".to_vec();
    assert_eq!(
        codec.decode(&mut buf).unwrap(),
        Some(CodecItem::Line("one".into()))
    );
    assert_eq!(
        codec.decode(&mut buf).unwrap(),
        Some(CodecItem::Line("two".into()))
    );
}

#[test]
fn partial_line_waits() {
    let mut codec = TelnetLineCodec::new();
    let mut buf = b"hel".to_vec();
    assert_eq!(codec.decode(&mut buf).unwrap(), None);
    buf.extend_from_slice(b"lo\r\n");
    assert_eq!(
        codec.decode(&mut buf).unwrap(),
        Some(CodecItem::Line("hello".into()))
    );
}

// --- IAC stripping ---

#[test]
fn iac_iac_emits_literal_0xff() {
    let mut codec = TelnetLineCodec::new();
    let mut buf = b"\xFF\xFF\n".to_vec();
    let result = codec.decode(&mut buf).unwrap().unwrap();
    if let CodecItem::Line(s) = result {
        assert!(s.contains('\u{FFFD}'));
    } else {
        panic!("expected Line");
    }
}

#[test]
fn iac_will_discarded() {
    let mut codec = TelnetLineCodec::new();
    assert_eq!(
        decode_line(&mut codec, b"\xFF\xFB\x01hello\r\n"),
        Some("hello".into())
    );
}

#[test]
fn iac_wont_discarded() {
    let mut codec = TelnetLineCodec::new();
    assert_eq!(
        decode_line(&mut codec, b"\xFF\xFC\x01hello\r\n"),
        Some("hello".into())
    );
}

#[test]
fn iac_do_discarded() {
    let mut codec = TelnetLineCodec::new();
    assert_eq!(
        decode_line(&mut codec, b"\xFF\xFD\x01hello\r\n"),
        Some("hello".into())
    );
}

#[test]
fn iac_dont_discarded() {
    let mut codec = TelnetLineCodec::new();
    assert_eq!(
        decode_line(&mut codec, b"\xFF\xFE\x01hello\r\n"),
        Some("hello".into())
    );
}

#[test]
fn iac_two_byte_command_discarded() {
    let mut codec = TelnetLineCodec::new();
    assert_eq!(
        decode_line(&mut codec, b"\xFF\xF4hello\r\n"),
        Some("hello".into())
    );
}

#[test]
fn iac_subnegotiation_discarded() {
    let mut codec = TelnetLineCodec::new();
    assert_eq!(
        decode_line(&mut codec, b"\xFF\xFA\x1F\x00\x50\x00\x28\xFF\xF0hello\r\n"),
        Some("hello".into())
    );
}

#[test]
fn iac_subnegotiation_across_calls() {
    let mut codec = TelnetLineCodec::new();
    let mut buf = b"\xFF\xFA\x1F\x00".to_vec();
    assert_eq!(codec.decode(&mut buf).unwrap(), None);
    buf.extend_from_slice(b"\x50\x00\x28\xFF\xF0hello\r\n");
    assert_eq!(
        codec.decode(&mut buf).unwrap(),
        Some(CodecItem::Line("hello".into()))
    );
}

#[test]
fn iac_at_end_of_buffer_waits() {
    let mut codec = TelnetLineCodec::new();
    let mut buf = b"hello\xFF".to_vec();
    assert_eq!(codec.decode(&mut buf).unwrap(), None);
    buf.extend_from_slice(b"\xFB\x01\r\n");
    assert_eq!(
        codec.decode(&mut buf).unwrap(),
        Some(CodecItem::Line("hello".into()))
    );
}

#[test]
fn iac_incomplete_3byte_at_end() {
    let mut codec = TelnetLineCodec::new();
    let mut buf = b"\xFF\xFB".to_vec();
    assert_eq!(codec.decode(&mut buf).unwrap(), None);
    buf.extend_from_slice(b"\x01hello\r\n");
    assert_eq!(
        codec.decode(&mut buf).unwrap(),
        Some(CodecItem::Line("hello".into()))
    );
}

#[test]
fn iac_iac_inside_subnegotiation() {
    let mut codec = TelnetLineCodec::new();
    assert_eq!(
        decode_line(&mut codec, b"\xFF\xFA\x00\xFF\xFF\xFF\xF0hi\r\n"),
        Some("hi".into())
    );
}

#[test]
fn multiple_iac_sequences_in_one_line() {
    let mut codec = TelnetLineCodec::new();
    assert_eq!(
        decode_line(&mut codec, b"\xFF\xFB\x01hel\xFF\xFD\x03lo\r\n"),
        Some("hello".into())
    );
}

// --- Overflow ---

#[test]
fn line_too_long_triggers_discard_then_recovery() {
    let mut codec = TelnetLineCodec::with_limits(10, 1024);
    let mut buf = vec![b'a'; 16];

    let result = codec.decode(&mut buf).unwrap();
    assert_eq!(result, Some(CodecItem::LineTooLong));
    assert!(buf.is_empty());

    buf.extend_from_slice(b"more_garbage\r\n");
    assert_eq!(codec.decode(&mut buf).unwrap(), None);

    buf.extend_from_slice(b"ok\r\n");
    assert_eq!(
        codec.decode(&mut buf).unwrap(),
        Some(CodecItem::Line("ok".into()))
    );
}

#[test]
fn buffer_overflow_disconnects() {
    let mut codec = TelnetLineCodec::with_limits(4096, 100);
    let mut buf = vec![b'x'; 101];

    let err = codec.decode(&mut buf).unwrap_err();
    assert!(matches!(err, TelnetCodecError::BufferOverflow { max: 100 }));
}

// --- UTF-8 ---

#[test]
fn valid_utf8_passes_through() {
    let mut codec = TelnetLineCodec::new();
    assert_eq!(
        decode_line(&mut codec, b"hello world\r\n"),
        Some("hello world".into())
    );
}

#[test]
fn invalid_utf8_replaced() {
    let mut codec = TelnetLineCodec::new();
    let result = decode_line(&mut codec, b"\x80\x81hello\r\n").unwrap();
    assert!(result.contains('\u{FFFD}'));
    assert!(result.contains("hello"));
}

// --- Edge cases ---

#[test]
fn empty_buffer_returns_none() {
    let mut codec = TelnetLineCodec::new();
    let mut buf: Vec<u8> = Vec::new();
    assert_eq!(codec.decode(&mut buf).unwrap(), None);
}

#[test]
fn decode_eof_with_trailing_data() {
    let mut codec = TelnetLineCodec::new();
    let mut buf = b"hello".to_vec();
    assert_eq!(
        codec.decode_eof(&mut buf).unwrap(),
        Some(CodecItem::Line("hello".into()))
    );
}

#[test]
fn decode_eof_with_empty_buffer() {
    let mut codec = TelnetLineCodec::new();
    let mut buf: Vec<u8> = Vec::new();
    assert_eq!(codec.decode_eof(&mut buf).unwrap(), None);
}

#[test]
fn decode_eof_while_discarding() {
    let mut codec = TelnetLineCodec::with_limits(10, 1024);
    let mut buf = vec![b'a'; 16];
    let _ = codec.decode(&mut buf);
    buf.extend_from_slice(b"trailing");
    assert_eq!(codec.decode_eof(&mut buf).unwrap(), None);
}

#[test]
fn decode_eof_with_incomplete_iac() {
    let mut codec = TelnetLineCodec::new();
    let mut buf = b"\xFF".to_vec();
    assert_eq!(codec.decode_eof(&mut buf).unwrap(), None);
}

#[test]
fn decode_eof_strips_trailing_lone_iac() {
    let mut codec = TelnetLineCodec::new();
    let mut buf = b"hello\xFF".to_vec();
    assert_eq!(
        codec.decode_eof(&mut buf).unwrap(),
        Some(CodecItem::Line("hello".into()))
    );
}

#[test]
fn decode_eof_strips_trailing_iac_will() {
    let mut codec = TelnetLineCodec::new();
    let mut buf = b"hello\xFF\xFB".to_vec();
    assert_eq!(
        codec.decode_eof(&mut buf).unwrap(),
        Some(CodecItem::Line("hello".into()))
    );
}

#[test]
fn byte_at_a_time_feeding() {
    let mut codec = TelnetLineCodec::new();
    let input = b"hello\n";
    let mut buf: Vec<u8> = Vec::new();

    for (i, &byte) in input.iter().enumerate() {
        buf.extend_from_slice(&[byte]);
        let result = codec.decode(&mut buf).unwrap();
        if i < input.len() - 1 {
            assert!(result.is_none(), "unexpected result at byte {i}");
        } else {
            assert_eq!(result, Some(CodecItem::Line("hello".into())));
        }
    }
}

// --- Further cases ---

#[test]
fn overflow_leaves_buffer_untouched() {
    let mut codec = TelnetLineCodec::with_limits(4096, 4);
    let mut buf = b"ab\r\ncd".to_vec();
    assert!(codec.decode(&mut buf).is_err());
    assert_eq!(buf, b"ab\r\ncd".to_vec());
}

#[test]
fn buffer_at_cap_is_accepted() {
    let mut codec = TelnetLineCodec::with_limits(4096, 4);
    let mut buf = b"ab\r\n".to_vec();
    assert_eq!(
        codec.decode(&mut buf).unwrap(),
        Some(CodecItem::Line("ab".into()))
    );
    assert!(buf.is_empty());
}

#[test]
fn crlf_counts_as_one_terminator() {
    let mut codec = TelnetLineCodec::new();
    let mut buf = b"a\r\n\r\nb\n".to_vec();
    assert_eq!(codec.decode(&mut buf).unwrap(), Some(CodecItem::Line("a".into())));
    assert_eq!(codec.decode(&mut buf).unwrap(), Some(CodecItem::Line(String::new())));
    assert_eq!(codec.decode(&mut buf).unwrap(), Some(CodecItem::Line("b".into())));
    assert!(buf.is_empty());
}

#[test]
fn lf_cr_gives_two_lines() {
    let mut codec = TelnetLineCodec::new();
    let mut buf = b"a\n\rb\r".to_vec();
    assert_eq!(codec.decode(&mut buf).unwrap(), Some(CodecItem::Line("a".into())));
    assert_eq!(codec.decode(&mut buf).unwrap(), Some(CodecItem::Line(String::new())));
    assert_eq!(codec.decode(&mut buf).unwrap(), Some(CodecItem::Line("b".into())));
}

#[test]
fn terminated_long_line_is_delivered() {
    let mut codec = TelnetLineCodec::with_limits(4, 1024);
    let mut buf = b"abcdefgh\n".to_vec();
    assert_eq!(
        codec.decode(&mut buf).unwrap(),
        Some(CodecItem::Line("abcdefgh".into()))
    );
}

#[test]
fn line_at_limit_waits() {
    let mut codec = TelnetLineCodec::with_limits(4, 1024);
    let mut buf = b"abcd".to_vec();
    assert_eq!(codec.decode(&mut buf).unwrap(), None);
    assert!(buf.is_empty());
    buf.extend_from_slice(b"\n");
    assert_eq!(codec.decode(&mut buf).unwrap(), Some(CodecItem::Line("abcd".into())));
}

#[test]
fn escaped_iac_survives_a_split_read() {
    let mut codec = TelnetLineCodec::new();
    let mut buf = b"a\xFF\xFF".to_vec();
    assert_eq!(codec.decode(&mut buf).unwrap(), None);
    buf.extend_from_slice(b"\n");
    assert_eq!(
        codec.decode(&mut buf).unwrap(),
        Some(CodecItem::Line("a\u{FFFD}".into()))
    );
    assert!(buf.is_empty());
}

#[test]
fn escaped_iac_inside_subnegotiation_is_data() {
    let mut codec = TelnetLineCodec::new();
    let mut buf = b"\xFF\xFA\x18\xFF\xFF\xF0abc\xFF\xF0hi\r\n".to_vec();
    assert_eq!(codec.decode(&mut buf).unwrap(), Some(CodecItem::Line("hi".into())));
    assert!(buf.is_empty());
}

#[test]
fn incomplete_command_stays_unread() {
    let mut codec = TelnetLineCodec::new();
    let mut buf = b"ab\xFF\xFB".to_vec();
    assert_eq!(codec.decode(&mut buf).unwrap(), None);
    assert_eq!(buf, b"\xFF\xFB".to_vec());
    buf.extend_from_slice(b"\x01c\n");
    assert_eq!(codec.decode(&mut buf).unwrap(), Some(CodecItem::Line("abc".into())));
}

#[test]
fn byte_at_a_time_matches_one_chunk() {
    let input = b"one\ntwo\nthree\n\nfour\n";
    let mut whole = TelnetLineCodec::new();
    let mut buf = input.to_vec();
    let mut expected = Vec::new();
    while let Some(item) = whole.decode(&mut buf).unwrap() {
        expected.push(item);
    }
    let mut split = TelnetLineCodec::new();
    let mut buf = Vec::new();
    let mut got = Vec::new();
    for b in input.iter() {
        buf.push(*b);
        while let Some(item) = split.decode(&mut buf).unwrap() {
            got.push(item);
        }
    }
    assert_eq!(got, expected);
    assert_eq!(expected.len(), 5);
}

#[test]
fn discarding_ends_at_terminator_in_same_buffer() {
    let mut codec = TelnetLineCodec::with_limits(3, 1024);
    let mut buf = b"abcdef".to_vec();
    assert_eq!(codec.decode(&mut buf).unwrap(), Some(CodecItem::LineTooLong));
    buf.extend_from_slice(b"junk\r\nok\r\n");
    assert_eq!(codec.decode(&mut buf).unwrap(), Some(CodecItem::Line("ok".into())));
}

#[test]
fn subnegotiation_ends_only_at_iac_se() {
    let mut codec = TelnetLineCodec::new();
    assert_eq!(
        decode_line(&mut codec, b"\xFF\xFAab\xF0cd\xFF\xF0ok\n"),
        Some("ok".into())
    );
}

#[test]
fn decode_eof_inside_subnegotiation_drops_rest() {
    let mut codec = TelnetLineCodec::new();
    let mut buf = b"\xFF\xFAabc".to_vec();
    assert_eq!(codec.decode_eof(&mut buf).unwrap(), None);
    assert!(buf.is_empty());
}

#[test]
fn codec_error_message_names_cap() {
    let err = TelnetCodecError::BufferOverflow { max: 100 };
    assert_eq!(err.message(), "buffer overflow (max 100 bytes)");
    let core = err.into_error();
    assert_eq!(core.message(), "codec error: buffer overflow (max 100 bytes)");
}

#[test]
fn default_codec_uses_default_limits() {
    let mut codec = TelnetLineCodec::default();
    let mut buf = vec![b'x'; 4097];
    assert_eq!(codec.decode(&mut buf).unwrap(), Some(CodecItem::LineTooLong));
}

#[test]
fn unread_command_counts_towards_the_line_limit() {
    let mut codec = TelnetLineCodec::with_limits(5, 100);
    let mut buf = b"hello\xFF".to_vec();
    assert_eq!(codec.decode(&mut buf).unwrap(), Some(CodecItem::LineTooLong));
    assert!(buf.is_empty());
    buf.extend_from_slice(b"\xFB\x01\r\n");
    assert_eq!(codec.decode(&mut buf).unwrap(), None);
    buf.extend_from_slice(b"ok\n");
    assert_eq!(codec.decode(&mut buf).unwrap(), Some(CodecItem::Line("ok".into())));
}

#[test]
fn unread_command_within_the_limit_waits() {
    let mut codec = TelnetLineCodec::with_limits(6, 100);
    let mut buf = b"hello\xFF".to_vec();
    assert_eq!(codec.decode(&mut buf).unwrap(), None);
    assert_eq!(buf, b"\xFF".to_vec());
}
