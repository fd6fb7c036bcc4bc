use bytes::BytesMut;
use resp_codec::{
    BulkString, ErrorKind, RespArray, RespDecode, RespDouble, RespEncode, RespError, RespFrame,
    RespMap, RespNull, RespNullArray, RespNullBulkString, RespSet, SimpleError, SimpleString,
};

fn buffer(bytes: &[u8]) -> BytesMut {
    BytesMut::from(bytes)
}

#[test]
fn test_decode_simple_string() {
    let mut buf = buffer(b"+OK\r\n");
    let frame = SimpleString::decode(&mut buf).unwrap();
    assert_eq!(frame, SimpleString::new("OK".to_string()));
    assert!(buf.is_empty());
}

#[test]
fn test_decode_simple_string_waits_for_the_line_feed() {
    let mut buf = buffer(b"+hello\r");
    let ret = SimpleString::decode(&mut buf);
    assert_eq!(ret.unwrap_err(), RespError::NotComplete);
    assert_eq!(&buf[..], b"+hello\r");

    buf.extend_from_slice(b"\n");
    let frame = SimpleString::decode(&mut buf).unwrap();
    assert_eq!(frame, SimpleString::new("hello".to_string()));
    assert!(buf.is_empty());
}

#[test]
fn test_decode_simple_string_wrong_prefix() {
    let mut buf = buffer(b"-OK\r\n");
    let ret = SimpleString::decode(&mut buf);
    assert_eq!(ret.unwrap_err().kind(), ErrorKind::InvalidFrameType);
    assert_eq!(&buf[..], b"-OK\r\n");
}

#[test]
fn test_decode_simple_string_keeps_text_that_is_not_ascii() {
    let mut buf = buffer("+héllo\r\n".as_bytes());
    let frame = SimpleString::decode(&mut buf).unwrap();
    assert_eq!(*frame, "héllo");
}

#[test]
fn test_decode_simple_string_replaces_malformed_text() {
    let mut buf = buffer(b"+a\xffb\r\n");
    let frame = SimpleString::decode(&mut buf).unwrap();
    assert_eq!(*frame, "a\u{fffd}b");
}

#[test]
fn test_decode_simple_error() {
    let mut buf = buffer(b"-Error message\r\n");
    let frame = SimpleError::decode(&mut buf).unwrap();
    assert_eq!(frame, SimpleError::new("Error message".to_string()));
    assert!(buf.is_empty());
}

#[test]
fn test_decode_integer() {
    let mut buf = buffer(b":+123\r\n");
    assert_eq!(i64::decode(&mut buf).unwrap(), 123);
    assert!(buf.is_empty());

    let mut buf = buffer(b":-123\r\n");
    assert_eq!(i64::decode(&mut buf).unwrap(), -123);

    let mut buf = buffer(b":7\r\n");
    assert_eq!(i64::decode(&mut buf).unwrap(), 7);

    let mut buf = buffer(b":-9223372036854775808\r\n");
    assert_eq!(i64::decode(&mut buf).unwrap(), i64::MIN);
}

#[test]
fn test_decode_integer_that_is_none() {
    for text in [
        &b":abc\r\n"[..],
        &b":\r\n"[..],
        &b":+\r\n"[..],
        &b":1.5\r\n"[..],
        &b":9223372036854775808\r\n"[..],
        &b":12 \r\n"[..],
    ] {
        let mut buf = buffer(text);
        let ret = i64::decode(&mut buf);
        assert_eq!(ret.unwrap_err().kind(), ErrorKind::ParseIntError);
        assert_eq!(&buf[..], text);
    }
}

#[test]
fn test_decode_boolean() {
    let mut buf = buffer(b"#t\r\n#f\r\n");
    assert!(bool::decode(&mut buf).unwrap());
    assert_eq!(&buf[..], b"#f\r\n");
    assert!(!bool::decode(&mut buf).unwrap());
    assert!(buf.is_empty());
}

#[test]
fn test_decode_boolean_that_is_none() {
    let mut buf = buffer(b"#x\r\n");
    let ret = bool::decode(&mut buf);
    assert_eq!(ret.unwrap_err().kind(), ErrorKind::InvalidFrame);
    assert_eq!(&buf[..], b"#x\r\n");

    let mut buf = buffer(b"#true\r\n");
    assert_eq!(bool::expect_length(&buf[..]).unwrap(), 7);
    let ret = bool::decode(&mut buf);
    assert_eq!(ret.unwrap_err().kind(), ErrorKind::InvalidFrame);
}

#[test]
fn test_decode_double() {
    let mut buf = buffer(b",+1.23456e8\r\n");
    let frame = RespDouble::decode(&mut buf).unwrap();
    assert_eq!(frame.as_bytes(), b"+1.23456e8");
    assert!(buf.is_empty());

    let mut buf = buffer(b",-1.23456e-9\r\n");
    let frame = RespDouble::decode(&mut buf).unwrap();
    assert_eq!(frame.as_bytes(), b"-1.23456e-9");

    let mut buf = buffer(b",123.45\r\n");
    let frame = RespDouble::decode(&mut buf).unwrap();
    assert_eq!(frame.as_bytes(), b"+123.45");
    let x: f64 = std::str::from_utf8(frame.as_bytes()).unwrap().parse().unwrap();
    assert_eq!(x, 123.45);
}

#[test]
fn test_decode_double_that_is_none() {
    for text in [&b",abc\r\n"[..], &b",\r\n"[..], &b",1e\r\n"[..], &b",.\r\n"[..], &b",1.2.3\r\n"[..]] {
        let mut buf = buffer(text);
        let ret = RespDouble::decode(&mut buf);
        assert_eq!(ret.unwrap_err().kind(), ErrorKind::ParseFloatError);
        assert_eq!(&buf[..], text);
    }
}

#[test]
fn test_decode_double_error_carries_the_text() {
    let mut buf = buffer(b",abc\r\n");
    let ret = RespDouble::decode(&mut buf);
    assert_eq!(ret.unwrap_err(), RespError::ParseFloatError("abc".to_string()));
}

#[test]
fn test_decode_null() {
    let mut buf = buffer(b"_\r\n");
    assert_eq!(RespNull::decode(&mut buf).unwrap(), RespNull);
    assert!(buf.is_empty());
}

#[test]
fn test_decode_null_without_terminator() {
    let mut buf = buffer(b"_xy");
    assert_eq!(RespNull::expect_length(&buf[..]).unwrap(), 3);
    let ret = RespNull::decode(&mut buf);
    assert_eq!(ret.unwrap_err().kind(), ErrorKind::InvalidFrame);
    assert_eq!(&buf[..], b"_xy");

    let mut buf = buffer(b"_\r");
    let ret = RespNull::decode(&mut buf);
    assert_eq!(ret.unwrap_err(), RespError::NotComplete);
}

#[test]
fn test_decode_null_bulk_string() {
    let mut buf = buffer(b"$-1\r\n");
    assert_eq!(RespNullBulkString::decode(&mut buf).unwrap(), RespNullBulkString);
    assert!(buf.is_empty());

    let mut buf = buffer(b"$5\r\nhello\r\n");
    let ret = RespNullBulkString::decode(&mut buf);
    assert_eq!(ret.unwrap_err().kind(), ErrorKind::InvalidFrameType);
    assert_eq!(buf.len(), 11);
}

#[test]
fn test_decode_null_array() {
    let mut buf = buffer(b"*-1\r\n");
    assert_eq!(RespNullArray::decode(&mut buf).unwrap(), RespNullArray);
    assert!(buf.is_empty());
}

#[test]
fn test_decode_bulk_string() {
    let mut buf = buffer(b"$5\r\nhello\r\n");
    let frame = BulkString::decode(&mut buf).unwrap();
    assert_eq!(frame, BulkString::new(b"hello".to_vec()));
    assert!(buf.is_empty());
}

#[test]
fn test_decode_bulk_string_in_pieces() {
    let mut buf = buffer(b"$5\r\nhello");
    let ret = BulkString::decode(&mut buf);
    assert_eq!(ret.unwrap_err(), RespError::NotComplete);
    assert_eq!(&buf[..], b"$5\r\nhello");

    buf.extend_from_slice(b"\r\n");
    let frame = BulkString::decode(&mut buf).unwrap();
    assert_eq!(frame, BulkString::new(b"hello".to_vec()));
}

#[test]
fn test_decode_bulk_string_holds_any_byte() {
    let mut buf = buffer(b"$4\r\n\r\n\x00\xff\r\nrest");
    let frame = BulkString::decode(&mut buf).unwrap();
    assert_eq!(frame, BulkString::new(vec![13, 10, 0, 255]));
    assert_eq!(&buf[..], b"rest");
}

#[test]
fn test_decode_bulk_string_bad_length() {
    for text in [&b"$x\r\nhello\r\n"[..], &b"$\r\n"[..], &b"$-2\r\n"[..], &b"$1 \r\na\r\n"[..]] {
        let mut buf = buffer(text);
        let ret = BulkString::decode(&mut buf);
        assert_eq!(ret.unwrap_err().kind(), ErrorKind::InvalidFrameLength);
        assert_eq!(&buf[..], text);
    }
    let mut buf = buffer(b"$99999999999999999999999999\r\n");
    let ret = BulkString::decode(&mut buf);
    assert_eq!(ret.unwrap_err().kind(), ErrorKind::InvalidFrameLength);
}

#[test]
fn test_decode_array() {
    let mut buf = buffer(b"*2\r\n$3\r\nset\r\n$5\r\nhello\r\n");
    let frame = RespArray::decode(&mut buf).unwrap();
    assert_eq!(
        frame,
        RespArray::new(vec![BulkString::from("set").into(), BulkString::from("hello").into()])
    );
    assert!(buf.is_empty());
}

#[test]
fn test_decode_array_in_pieces() {
    let mut buf = buffer(b"*2\r\n$3\r\nset\r\n");
    let ret = RespArray::decode(&mut buf);
    assert_eq!(ret.unwrap_err(), RespError::NotComplete);
    assert_eq!(&buf[..], b"*2\r\n$3\r\nset\r\n");

    buf.extend_from_slice(b"$5\r\nhello\r\n");
    let frame = RespArray::decode(&mut buf).unwrap();
    assert_eq!(
        frame,
        RespArray::new(vec![BulkString::from("set").into(), BulkString::from("hello").into()])
    );
}

#[test]
fn test_decode_empty_array() {
    let mut buf = buffer(b"*0\r\n");
    let frame = RespFrame::decode(&mut buf).unwrap();
    assert_eq!(frame, RespFrame::Array(RespArray::new(vec![])));
    assert!(buf.is_empty());
}

#[test]
fn test_decode_array_leaves_the_buffer_when_an_item_is_malformed() {
    let text = b"*2\r\n:1\r\n:x\r\n";
    let mut buf = buffer(text);
    let ret = RespFrame::decode(&mut buf);
    assert_eq!(ret.unwrap_err().kind(), ErrorKind::ParseIntError);
    assert_eq!(&buf[..], text);
}

#[test]
fn test_decode_incomplete_beats_malformed() {
    let text = b"*2\r\n:x\r\n";
    let mut buf = buffer(text);
    let ret = RespFrame::decode(&mut buf);
    assert_eq!(ret.unwrap_err(), RespError::NotComplete);
    assert_eq!(&buf[..], text);
}

#[test]
fn test_decode_set() {
    let mut buf = buffer(b"~2\r\n$3\r\nset\r\n$5\r\nhello\r\n");
    let frame = RespSet::decode(&mut buf).unwrap();
    assert_eq!(
        frame,
        RespSet::new(vec![BulkString::from("set").into(), BulkString::from("hello").into()])
    );
    assert!(buf.is_empty());
}

#[test]
fn test_decode_set_has_no_null_form() {
    let mut buf = buffer(b"~-1\r\n");
    let ret = RespFrame::decode(&mut buf);
    assert_eq!(ret.unwrap_err().kind(), ErrorKind::InvalidFrameLength);
}

#[test]
fn test_decode_map() {
    let mut buf = buffer(b"%2\r\n+hello\r\n$5\r\nworld\r\n+foo\r\n$3\r\nbar\r\n");
    let frame = RespMap::decode(&mut buf).unwrap();
    let mut map = RespMap::new();
    map.insert("hello".to_string(), BulkString::from("world").into());
    map.insert("foo".to_string(), BulkString::from("bar").into());
    assert_eq!(frame, map);
    assert!(buf.is_empty());
    assert_eq!(frame.len(), 2);
    assert_eq!(frame.entry(0).0, "foo");
    assert_eq!(frame.entry(1).0, "hello");
}

#[test]
fn test_decode_map_last_value_stays() {
    let mut buf = buffer(b"%2\r\n+k\r\n:1\r\n+k\r\n:2\r\n");
    let frame = RespMap::decode(&mut buf).unwrap();
    assert_eq!(frame.len(), 1);
    assert_eq!(frame.get("k"), Some(&RespFrame::Integer(2)));
}

#[test]
fn test_decode_map_key_of_another_type() {
    let text = b"%1\r\n$1\r\nk\r\n:1\r\n";
    let mut buf = buffer(text);
    let ret = RespFrame::decode(&mut buf);
    assert_eq!(ret.unwrap_err().kind(), ErrorKind::InvalidFrameType);
    assert_eq!(&buf[..], text);
}

#[test]
fn test_decode_frame_of_each_type() {
    let mut buf = buffer(
        b"+OK\r\n-ERR\r\n:+42\r\n$2\r\nhi\r\n$-1\r\n*1\r\n#t\r\n_\r\n*-1\r\n#f\r\n,+1.5\r\n%1\r\n+a\r\n:1\r\n~1\r\n:2\r\n",
    );
    let mut frames = Vec::new();
    while !buf.is_empty() {
        frames.push(RespFrame::decode(&mut buf).unwrap());
    }
    let mut map = RespMap::new();
    map.insert("a".to_string(), 1.into());
    assert_eq!(
        frames,
        vec![
            RespFrame::SimpleString(SimpleString::new("OK".to_string())),
            RespFrame::Error(SimpleError::new("ERR".to_string())),
            RespFrame::Integer(42),
            RespFrame::BulkString(BulkString::new(b"hi".to_vec())),
            RespFrame::NullBulkString(RespNullBulkString),
            RespFrame::Array(RespArray::new(vec![true.into()])),
            RespFrame::Null(RespNull),
            RespFrame::NullArray(RespNullArray),
            RespFrame::Boolean(false),
            RespFrame::Double(RespDouble::new("+1.5").unwrap()),
            RespFrame::RespMap(map),
            RespFrame::RespSet(RespSet::new(vec![2.into()])),
        ]
    );
}

#[test]
fn test_decode_unknown_prefix() {
    let mut buf = buffer(b"?what\r\n");
    let ret = RespFrame::decode(&mut buf);
    assert_eq!(ret.unwrap_err().kind(), ErrorKind::InvalidFrameType);
    assert_eq!(&buf[..], b"?what\r\n");
    assert_eq!(
        RespFrame::expect_length(b"?what\r\n").unwrap_err().kind(),
        ErrorKind::InvalidFrameType
    );
}

#[test]
fn test_decode_empty_buffer() {
    let mut buf = BytesMut::new();
    assert_eq!(RespFrame::decode(&mut buf).unwrap_err(), RespError::NotComplete);
    assert_eq!(RespFrame::expect_length(b"").unwrap_err(), RespError::NotComplete);
}

#[test]
fn test_decode_takes_one_frame_only() {
    let mut buf = buffer(b":+1\r\n:+2\r\n");
    assert_eq!(RespFrame::decode(&mut buf).unwrap(), RespFrame::Integer(1));
    assert_eq!(&buf[..], b":+2\r\n");
    assert_eq!(RespFrame::decode(&mut buf).unwrap(), RespFrame::Integer(2));
    assert!(buf.is_empty());
    assert_eq!(RespFrame::decode(&mut buf).unwrap_err(), RespError::NotComplete);
}

fn sample_frames() -> Vec<RespFrame> {
    let mut map = RespMap::new();
    map.insert("hello".to_string(), BulkString::from("world").into());
    map.insert("foo".to_string(), RespDouble::new("-1.23456789").unwrap().into());
    map.insert(
        "nested".to_string(),
        RespArray::new(vec![RespNull.into(), RespNullArray.into(), RespNullBulkString.into()])
            .into(),
    );
    vec![
        SimpleString::new("OK".to_string()).into(),
        SimpleString::new("".to_string()).into(),
        SimpleString::new("tab\tand\rlone\nbreaks, ünïcödé".to_string()).into(),
        SimpleError::new("ERR unknown command".to_string()).into(),
        0.into(),
        42.into(),
        (-7).into(),
        i64::MAX.into(),
        i64::MIN.into(),
        BulkString::new(vec![]).into(),
        BulkString::new(b"with\r\nterminator".to_vec()).into(),
        BulkString::new((0..=255).collect()).into(),
        RespNullBulkString.into(),
        RespNull.into(),
        RespNullArray.into(),
        true.into(),
        false.into(),
        RespDouble::new("1.5").unwrap().into(),
        RespDouble::new("-1e-9").unwrap().into(),
        RespDouble::new("inf").unwrap().into(),
        RespDouble::new("NaN").unwrap().into(),
        RespArray::new(vec![]).into(),
        RespArray::new(vec![
            1234.into(),
            true.into(),
            RespArray::new(vec![RespSet::new(vec![BulkString::from("x").into()]).into()]).into(),
        ])
        .into(),
        RespSet::new(vec![1.into(), 1.into(), 0.into()]).into(),
        RespMap::new().into(),
        map.into(),
    ]
}

fn copy(frame: &RespFrame) -> RespFrame {
    let mut buf = BytesMut::new();
    buf.extend_from_slice(&encode_by_hand(frame));
    RespFrame::decode(&mut buf).unwrap()
}

fn encode_by_hand(frame: &RespFrame) -> Vec<u8> {
    match frame {
        RespFrame::SimpleString(s) => format!("+{}\r\n", **s).into_bytes(),
        RespFrame::Error(s) => format!("-{}\r\n", **s).into_bytes(),
        RespFrame::Integer(i) => format!(":{:+}\r\n", i).into_bytes(),
        RespFrame::BulkString(b) => {
            let mut out = format!("${}\r\n", b.len()).into_bytes();
            out.extend_from_slice(b);
            out.extend_from_slice(b"\r\n");
            out
        }
        RespFrame::NullBulkString(_) => b"$-1\r\n".to_vec(),
        RespFrame::Array(a) => {
            let mut out = format!("*{}\r\n", a.len()).into_bytes();
            for item in a.iter() {
                out.extend_from_slice(&encode_by_hand(item));
            }
            out
        }
        RespFrame::Null(_) => b"_\r\n".to_vec(),
        RespFrame::NullArray(_) => b"*-1\r\n".to_vec(),
        RespFrame::Boolean(b) => (if *b { "#t\r\n" } else { "#f\r\n" }).as_bytes().to_vec(),
        RespFrame::Double(d) => {
            let mut out = b",".to_vec();
            out.extend_from_slice(d.as_bytes());
            out.extend_from_slice(b"\r\n");
            out
        }
        RespFrame::RespMap(m) => {
            let mut out = format!("%{}\r\n", m.len()).into_bytes();
            for i in 0..m.len() {
                let (key, value) = m.entry(i);
                out.extend_from_slice(format!("+{}\r\n", key).as_bytes());
                out.extend_from_slice(&encode_by_hand(value));
            }
            out
        }
        RespFrame::RespSet(s) => {
            let mut out = format!("~{}\r\n", s.len()).into_bytes();
            for item in s.iter() {
                out.extend_from_slice(&encode_by_hand(item));
            }
            out
        }
    }
}

#[test]
fn test_round_trip() {
    for frame in sample_frames() {
        let twin = copy(&frame);
        assert_eq!(twin, frame);
        let bytes = frame.encode();
        assert_eq!(bytes, encode_by_hand(&twin));

        let mut buf = BytesMut::new();
        buf.extend_from_slice(&bytes);
        buf.extend_from_slice(b"+next\r\n");
        assert_eq!(RespFrame::expect_length(&buf[..]).unwrap(), bytes.len());
        let back = RespFrame::decode(&mut buf).unwrap();
        assert_eq!(back, twin);
        assert_eq!(&buf[..], b"+next\r\n");
    }
}

#[test]
fn test_every_cut_is_incomplete_and_leaves_the_buffer() {
    for frame in sample_frames() {
        let name = format!("{:?}", frame);
        let bytes = frame.encode();
        for cut in 0..bytes.len() {
            let mut buf = buffer(&bytes[..cut]);
            assert_eq!(
                RespFrame::expect_length(&buf[..]).unwrap_err(),
                RespError::NotComplete,
                "{} cut at {}",
                name,
                cut
            );
            assert_eq!(RespFrame::decode(&mut buf).unwrap_err(), RespError::NotComplete);
            assert_eq!(&buf[..], &bytes[..cut]);
        }
    }
}

#[test]
fn test_text_with_a_terminator_inside_does_not_come_back() {
    let frame: RespFrame = SimpleString::new("a\r\nb".to_string()).into();
    let mut buf = buffer(&frame.encode());
    let back = RespFrame::decode(&mut buf).unwrap();
    assert_eq!(back, RespFrame::SimpleString(SimpleString::new("a".to_string())));
    assert_eq!(&buf[..], b"b\r\n");
}
